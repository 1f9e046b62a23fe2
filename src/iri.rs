//! IRI parsing and validation.
use vstd::prelude::*;
use vstd::string::*;
use vstd::utf8::encode_scalar;
use crate::ip::{check_ipv6, lemma_ipv6_chars, valid_ipv6};

verus! {

// ---------------------------------------------------------------------------
// Character classes
// ---------------------------------------------------------------------------

pub open spec fn is_alpha(c: char) -> bool {
    ('a' <= c && c <= 'z') || ('A' <= c && c <= 'Z')
}

pub open spec fn is_digit(c: char) -> bool {
    '0' <= c && c <= '9'
}

pub open spec fn is_hex(c: char) -> bool {
    is_digit(c) || ('a' <= c && c <= 'f') || ('A' <= c && c <= 'F')
}

pub open spec fn is_sub_delim(c: char) -> bool {
    c == '!' || c == '$' || c == '&' || c == '\'' || c == '(' || c == ')' || c == '*' || c == '+'
        || c == ',' || c == ';' || c == '='
}

/// The white space characters of Unicode; none may appear raw in an IRI.
pub open spec fn is_white_space(c: char) -> bool {
    let v = c as u32;
    (0x09 <= v && v <= 0x0D) || v == 0x20 || v == 0x85 || v == 0xA0 || v == 0x1680 || (0x2000
        <= v && v <= 0x200A) || v == 0x2028 || v == 0x2029 || v == 0x202F || v == 0x205F || v
        == 0x3000
}

/// The non-ASCII characters that may appear unescaped in an IRI: the ranges of
/// `ucschar`, less white space.
pub open spec fn is_ucschar(c: char) -> bool {
    let v = c as u32;
    ((0xA0 <= v && v <= 0xD7FF) || (0xF900 <= v && v <= 0xFDCF) || (0xFDF0 <= v && v <= 0xFFEF)
        || (0x10000 <= v && v < 0xE0000 && v % 0x10000 <= 0xFFFD)
        || (0xE1000 <= v && v <= 0xEFFFD)) && !is_white_space(c)
}

/// Private-use characters, allowed in the query only.
pub open spec fn is_iprivate(c: char) -> bool {
    let v = c as u32;
    (0xE000 <= v && v <= 0xF8FF) || (0xF0000 <= v && v <= 0xFFFFD) || (0x100000 <= v && v
        <= 0x10FFFD)
}

pub open spec fn is_iunreserved(c: char) -> bool {
    is_alpha(c) || is_digit(c) || c == '-' || c == '.' || c == '_' || c == '~' || is_ucschar(c)
}

pub open spec fn is_scheme_char(c: char) -> bool {
    is_alpha(c) || is_digit(c) || c == '+' || c == '-' || c == '.'
}

/// The component classes whose text may hold percent-encoded triplets.
#[derive(Clone, Copy, PartialEq, Eq, Debug)]
pub enum CharClass {
    UserInfo,
    RegName,
    Path,
    Query,
    Fragment,
}

/// Whether `c`, other than `%`, may appear unescaped in a component of class `k`.
pub open spec fn allowed(k: CharClass, c: char) -> bool {
    match k {
        CharClass::UserInfo => is_iunreserved(c) || is_sub_delim(c) || c == ':',
        CharClass::RegName => is_iunreserved(c) || is_sub_delim(c),
        CharClass::Path => is_iunreserved(c) || is_sub_delim(c) || c == ':' || c == '@' || c
            == '/',
        CharClass::Query => is_iunreserved(c) || is_sub_delim(c) || c == ':' || c == '@' || c
            == '/' || c == '?' || is_iprivate(c),
        CharClass::Fragment => is_iunreserved(c) || is_sub_delim(c) || c == ':' || c == '@' || c
            == '/' || c == '?',
    }
}

/// Position `i` of `s`, inside a component that ends at `hi`, is legal for class `k`:
/// a `%` opens a triplet of two hex digits, any other character is allowed by `k`.
pub open spec fn char_ok(s: Seq<char>, i: int, hi: int, k: CharClass) -> bool {
    if s[i] == '%' {
        i + 2 < hi && is_hex(s[i + 1]) && is_hex(s[i + 2])
    } else {
        allowed(k, s[i])
    }
}

/// `s[lo..hi]` is a legal component of class `k`.
pub open spec fn valid_range(s: Seq<char>, lo: int, hi: int, k: CharClass) -> bool {
    forall|i: int| lo <= i < hi ==> #[trigger] char_ok(s, i, hi, k)
}

/// `t` is a legal component of class `k`.
pub open spec fn valid_text(t: Seq<char>, k: CharClass) -> bool {
    valid_range(t, 0, t.len() as int, k)
}

/// A scheme: a letter followed by letters, digits, `+`, `-` and `.`.
pub open spec fn valid_scheme(t: Seq<char>) -> bool {
    t.len() > 0 && is_alpha(t[0]) && forall|i: int| 0 <= i < t.len() ==> is_scheme_char(#[trigger] t[i])
}

/// A port: decimal digits only (possibly none).
pub open spec fn valid_port(t: Seq<char>) -> bool {
    forall|i: int| 0 <= i < t.len() ==> is_digit(#[trigger] t[i])
}

/// The first index in `lo..hi` at which `s` holds `c`, or `hi` when there is none.
pub open spec fn idx_of(s: Seq<char>, lo: int, hi: int, c: char) -> int
    decreases hi - lo,
{
    if lo >= hi {
        hi
    } else if s[lo] == c {
        lo
    } else {
        idx_of(s, lo + 1, hi, c)
    }
}

/// The first index in `lo..hi` that is illegal for class `k`, or `hi`.
pub open spec fn first_bad(s: Seq<char>, lo: int, hi: int, k: CharClass) -> int
    decreases hi - lo,
{
    if lo >= hi {
        hi
    } else if !char_ok(s, lo, hi, k) {
        lo
    } else {
        first_bad(s, lo + 1, hi, k)
    }
}

pub proof fn lemma_first_bad(s: Seq<char>, lo: int, hi: int, k: CharClass)
    requires
        lo <= hi,
    ensures
        lo <= first_bad(s, lo, hi, k) <= hi,
        first_bad(s, lo, hi, k) < hi ==> !char_ok(s, first_bad(s, lo, hi, k), hi, k),
        forall|j: int| lo <= j < first_bad(s, lo, hi, k) ==> char_ok(s, j, hi, k),
        (first_bad(s, lo, hi, k) == hi) == valid_range(s, lo, hi, k),
    decreases hi - lo,
{
    if lo < hi && char_ok(s, lo, hi, k) {
        lemma_first_bad(s, lo + 1, hi, k);
        assert forall|j: int| lo <= j < hi implies #[trigger] char_ok(s, j, hi, k) <== valid_range(
            s,
            lo + 1,
            hi,
            k,
        ) by {
            if j == lo {
            }
        }
    }
    if lo < hi && !char_ok(s, lo, hi, k) {
        assert(!valid_range(s, lo, hi, k)) by {
            assert(!char_ok(s, lo, hi, k));
        }
    }
}

pub proof fn lemma_idx_of(s: Seq<char>, lo: int, hi: int, c: char)
    requires
        lo <= hi,
    ensures
        lo <= idx_of(s, lo, hi, c) <= hi,
        idx_of(s, lo, hi, c) < hi ==> s[idx_of(s, lo, hi, c)] == c,
        forall|j: int| lo <= j < idx_of(s, lo, hi, c) ==> s[j] != c,
    decreases hi - lo,
{
    if lo < hi && s[lo] != c {
        lemma_idx_of(s, lo + 1, hi, c);
    }
}

// ---------------------------------------------------------------------------
// Executable character tests
// ---------------------------------------------------------------------------

fn is_hex_exec(c: char) -> (r: bool)
    ensures
        r == is_hex(c),
{
    ('0' <= c && c <= '9') || ('a' <= c && c <= 'f') || ('A' <= c && c <= 'F')
}

fn is_alpha_exec(c: char) -> (r: bool)
    ensures
        r == is_alpha(c),
{
    ('a' <= c && c <= 'z') || ('A' <= c && c <= 'Z')
}

fn allowed_exec(k: CharClass, c: char) -> (r: bool)
    ensures
        r == allowed(k, c),
{
    let v = c as u32;
    let ucs = (0xA0 <= v && v <= 0xD7FF) || (0xF900 <= v && v <= 0xFDCF) || (0xFDF0 <= v && v
        <= 0xFFEF) || (0x10000 <= v && v < 0xE0000 && v % 0x10000 <= 0xFFFD) || (0xE1000 <= v
        && v <= 0xEFFFD);
    let white = (0x09 <= v && v <= 0x0D) || v == 0x20 || v == 0x85 || v == 0xA0 || v == 0x1680
        || (0x2000 <= v && v <= 0x200A) || v == 0x2028 || v == 0x2029 || v == 0x202F || v
        == 0x205F || v == 0x3000;
    let ucs = ucs && !white;
    let unreserved = is_alpha_exec(c) || ('0' <= c && c <= '9') || c == '-' || c == '.' || c
        == '_' || c == '~' || ucs;
    let sub = c == '!' || c == '$' || c == '&' || c == '\'' || c == '(' || c == ')' || c == '*'
        || c == '+' || c == ',' || c == ';' || c == '=';
    let pchar = unreserved || sub || c == ':' || c == '@' || c == '/';
    match k {
        CharClass::UserInfo => unreserved || sub || c == ':',
        CharClass::RegName => unreserved || sub,
        CharClass::Path => pchar,
        CharClass::Query => {
            let private = (0xE000 <= v && v <= 0xF8FF) || (0xF0000 <= v && v <= 0xFFFFD) || (
            0x100000 <= v && v <= 0x10FFFD);
            pchar || c == '?' || private
        },
        CharClass::Fragment => pchar || c == '?',
    }
}

/// The first index in `lo..hi` at which `s` holds `c`, or `hi`.
fn find_char(s: &str, lo: usize, hi: usize, c: char) -> (r: usize)
    requires
        lo <= hi <= s@.len(),
    ensures
        r == idx_of(s@, lo as int, hi as int, c),
        lo <= r <= hi,
{
    proof {
        lemma_idx_of(s@, lo as int, hi as int, c);
    }
    let mut i = lo;
    while i < hi
        invariant
            lo <= i <= hi <= s@.len(),
            idx_of(s@, i as int, hi as int, c) == idx_of(s@, lo as int, hi as int, c),
            lo <= idx_of(s@, lo as int, hi as int, c) <= hi,
        decreases hi - i,
    {
        if s.get_char(i) == c {
            return i;
        }
        i = i + 1;
    }
    i
}

/// The first index in `lo..hi` that is illegal for class `k`, or `hi`.
fn find_bad(s: &str, lo: usize, hi: usize, k: CharClass) -> (r: usize)
    requires
        lo <= hi <= s@.len(),
    ensures
        r == first_bad(s@, lo as int, hi as int, k),
        lo <= r <= hi,
        (r == hi) == valid_range(s@, lo as int, hi as int, k),
{
    proof {
        lemma_first_bad(s@, lo as int, hi as int, k);
    }
    let mut i = lo;
    while i < hi
        invariant
            lo <= i <= hi <= s@.len(),
            first_bad(s@, i as int, hi as int, k) == first_bad(s@, lo as int, hi as int, k),
            lo <= first_bad(s@, lo as int, hi as int, k) <= hi,
        decreases hi - i,
    {
        let c = s.get_char(i);
        if c == '%' {
            if hi - i <= 2 || !is_hex_exec(s.get_char(i + 1)) || !is_hex_exec(s.get_char(i + 2)) {
                return i;
            }
        } else if !allowed_exec(k, c) {
            return i;
        }
        i = i + 1;
    }
    i
}

/// Whether `s[lo..hi]` is a legal component of class `k`.
fn check_range(s: &str, lo: usize, hi: usize, k: CharClass) -> (r: bool)
    requires
        lo <= hi <= s@.len(),
    ensures
        r == valid_range(s@, lo as int, hi as int, k),
{
    let mut i = lo;
    while i < hi
        invariant
            lo <= i <= hi <= s@.len(),
            forall|j: int| lo <= j < i ==> #[trigger] char_ok(s@, j, hi as int, k),
        decreases hi - i,
    {
        let c = s.get_char(i);
        if c == '%' {
            if hi - i <= 2 || !is_hex_exec(s.get_char(i + 1)) || !is_hex_exec(s.get_char(i + 2)) {
                assert(!char_ok(s@, i as int, hi as int, k));
                return false;
            }
        } else if !allowed_exec(k, c) {
            assert(!char_ok(s@, i as int, hi as int, k));
            return false;
        }
        assert(char_ok(s@, i as int, hi as int, k));
        i = i + 1;
    }
    true
}


// ---------------------------------------------------------------------------
// The IRI model
// ---------------------------------------------------------------------------

/// Why a text is not an IRI; the components are checked left to right and
/// the first violation is reported.
#[derive(Clone, Copy, PartialEq, Eq, Debug)]
pub enum IriError {
    InvalidScheme,
    InvalidAuthority,
    InvalidPath,
    InvalidQuery,
    InvalidFragment,
    MultipleFragments,
}

/// The mathematical content of an authority: `[userinfo "@"] host [":" port]`.
pub struct AuthorityView {
    pub userinfo: Option<Seq<char>>,
    pub host: Seq<char>,
    pub port: Option<Seq<char>>,
}

/// The mathematical content of an IRI. A reference without a scheme is the
/// empty relative reference.
pub struct IriView {
    pub scheme: Option<Seq<char>>,
    pub authority: Option<AuthorityView>,
    pub path: Seq<char>,
    pub query: Option<Seq<char>>,
    pub fragment: Option<Seq<char>>,
}

pub open spec fn empty_view() -> IriView {
    IriView { scheme: None, authority: None, path: Seq::empty(), query: None, fragment: None }
}

/// The authority held by `s[lo..hi]`, or `None` when that text is no legal authority.
pub open spec fn authority_spec(s: Seq<char>, lo: int, hi: int) -> Option<AuthorityView> {
    let u = idx_of(s, lo, hi, '@');
    let hs = if u < hi { u + 1 } else { lo };
    let bracket = hs < hi && s[hs] == '[';
    let b = idx_of(s, hs, hi, ']');
    let he = if bracket {
        if b < hi { b + 1 } else { hi }
    } else {
        idx_of(s, hs, hi, ':')
    };
    let user_ok = u == hi || valid_range(s, lo, u, CharClass::UserInfo);
    let host_ok = if bracket {
        b < hi && valid_ipv6(s.subrange(hs + 1, b))
    } else {
        valid_range(s, hs, he, CharClass::RegName)
    };
    let port_ok = he == hi || (s[he] == ':' && valid_port(s.subrange(he + 1, hi)));
    if user_ok && host_ok && port_ok {
        Some(
            AuthorityView {
                userinfo: if u < hi { Some(s.subrange(lo, u)) } else { None },
                host: s.subrange(hs, he),
                port: if he < hi { Some(s.subrange(he + 1, hi)) } else { None },
            },
        )
    } else {
        None
    }
}

/// The outcome of parsing `s`: the text is split at the first `:` (scheme), the
/// first `#` after it (fragment) and the first `?` before that (query); what lies
/// between is `"//" authority path` or a bare path.
pub open spec fn parse_spec(s: Seq<char>) -> Result<IriView, IriError> {
    let n = s.len() as int;
    let c = idx_of(s, 0, n, ':');
    let h = idx_of(s, c + 1, n, '#');
    let q = idx_of(s, c + 1, h, '?');
    let has_auth = c + 3 <= q && s[c + 1] == '/' && s[c + 2] == '/';
    let e = if has_auth { idx_of(s, c + 3, q, '/') } else { c + 1 };
    if n == 0 {
        Ok(empty_view())
    } else if c == n || !valid_scheme(s.subrange(0, c)) {
        Err(IriError::InvalidScheme)
    } else if has_auth && authority_spec(s, c + 3, e) is None {
        Err(IriError::InvalidAuthority)
    } else if !valid_range(s, e, q, CharClass::Path) {
        Err(IriError::InvalidPath)
    } else if q < h && !valid_range(s, q + 1, h, CharClass::Query) {
        Err(IriError::InvalidQuery)
    } else if h < n && !valid_range(s, h + 1, n, CharClass::Fragment) {
        if s[first_bad(s, h + 1, n, CharClass::Fragment)] == '#' {
            Err(IriError::MultipleFragments)
        } else {
            Err(IriError::InvalidFragment)
        }
    } else {
        Ok(
            IriView {
                scheme: Some(s.subrange(0, c)),
                authority: if has_auth { authority_spec(s, c + 3, e) } else { None },
                path: s.subrange(e, q),
                query: if q < h { Some(s.subrange(q + 1, h)) } else { None },
                fragment: if h < n { Some(s.subrange(h + 1, n)) } else { None },
            },
        )
    }
}

/// An authority whose parts match their grammar classes: the host is a
/// registered name or a bracketed IPv6 address.
pub open spec fn authority_wf(a: AuthorityView) -> bool {
    &&& a.userinfo is Some ==> valid_text(a.userinfo->0, CharClass::UserInfo)
    &&& valid_text(a.host, CharClass::RegName) || (a.host.len() >= 2 && a.host[0] == '['
        && a.host.last() == ']' && valid_ipv6(a.host.subrange(1, a.host.len() - 1)))
    &&& a.port is Some ==> valid_port(a.port->0)
}

/// An IRI whose components match their grammar classes. No class admits `#`,
/// so the only fragment delimiter is the one before the fragment.
pub open spec fn iri_wf(v: IriView) -> bool {
    &&& v.scheme is None ==> v == empty_view()
    &&& v.scheme is Some ==> valid_scheme(v.scheme->0)
    &&& v.authority is Some ==> authority_wf(v.authority->0) && (v.path.len() == 0 || v.path[0]
        == '/')
    &&& valid_text(v.path, CharClass::Path)
    &&& v.query is Some ==> valid_text(v.query->0, CharClass::Query)
    &&& v.fragment is Some ==> valid_text(v.fragment->0, CharClass::Fragment)
}

pub open spec fn opt_prefix(o: Option<Seq<char>>, d: char) -> Seq<char> {
    match o {
        Some(t) => seq![d] + t,
        None => Seq::empty(),
    }
}

pub open spec fn render_authority(a: AuthorityView) -> Seq<char> {
    (match a.userinfo {
        Some(u) => u + seq!['@'],
        None => Seq::empty(),
    }) + a.host + opt_prefix(a.port, ':')
}

/// The canonical text of an IRI.
pub open spec fn render(v: IriView) -> Seq<char> {
    (match v.scheme {
        Some(x) => x + seq![':'],
        None => Seq::empty(),
    }) + (match v.authority {
        Some(a) => seq!['/', '/'] + render_authority(a),
        None => Seq::empty(),
    }) + v.path + opt_prefix(v.query, '?') + opt_prefix(v.fragment, '#')
}

pub open spec fn opt_view(o: Option<String>) -> Option<Seq<char>> {
    match o {
        Some(t) => Some(t@),
        None => None,
    }
}

/// A parsed authority.
#[derive(Clone, Debug)]
pub struct Authority {
    userinfo: Option<String>,
    host: String,
    port: Option<String>,
}

impl View for Authority {
    type V = AuthorityView;

    closed spec fn view(&self) -> AuthorityView {
        AuthorityView { userinfo: opt_view(self.userinfo), host: self.host@, port: opt_view(self.port) }
    }
}

pub open spec fn opt_authority_view(o: Option<Authority>) -> Option<AuthorityView> {
    match o {
        Some(a) => Some(a@),
        None => None,
    }
}

/// A validated, immutable IRI; it is built only by [`Iri::parse`].
#[derive(Debug)]
pub struct Iri {
    scheme: Option<String>,
    authority: Option<Authority>,
    path: String,
    query: Option<String>,
    fragment: Option<String>,
}

impl Iri {
    /// Every IRI is the parse of its own canonical text.
    #[verifier::type_invariant]
    spec fn inv(self) -> bool {
        parse_spec(render(self@)) == Ok::<IriView, IriError>(self@)
    }
}

impl View for Iri {
    type V = IriView;

    closed spec fn view(&self) -> IriView {
        IriView {
            scheme: opt_view(self.scheme),
            authority: opt_authority_view(self.authority),
            path: self.path@,
            query: opt_view(self.query),
            fragment: opt_view(self.fragment),
        }
    }
}

/// `a` and `b` are the same character up to ASCII case.
pub open spec fn same_char_ignoring_case(a: char, b: char) -> bool {
    a == b || ('A' <= a && a <= 'Z' && b as u32 == a as u32 + 32) || ('A' <= b && b <= 'Z' && a
        as u32 == b as u32 + 32)
}

/// `a` and `b` are the same text up to ASCII case.
pub open spec fn same_ignoring_case(a: Seq<char>, b: Seq<char>) -> bool {
    a.len() == b.len() && forall|i: int|
        0 <= i < a.len() ==> same_char_ignoring_case(#[trigger] a[i], b[i])
}

/// Equality of IRIs: scheme and host compare without regard to ASCII case,
/// every other component compares exactly.
pub open spec fn iri_equiv(a: IriView, b: IriView) -> bool {
    &&& a.scheme is Some <==> b.scheme is Some
    &&& a.scheme is Some ==> same_ignoring_case(a.scheme->0, b.scheme->0)
    &&& a.authority is Some <==> b.authority is Some
    &&& a.authority is Some ==> {
        let x = a.authority->0;
        let y = b.authority->0;
        x.userinfo == y.userinfo && same_ignoring_case(x.host, y.host) && x.port == y.port
    }
    &&& a.path == b.path
    &&& a.query == b.query
    &&& a.fragment == b.fragment
}

fn eq_ignoring_case(a: &String, b: &String) -> (r: bool)
    ensures
        r == same_ignoring_case(a@, b@),
{
    let x = a.as_str();
    let y = b.as_str();
    let n = x.unicode_len();
    if n != y.unicode_len() {
        return false;
    }
    let mut i: usize = 0;
    while i < n
        invariant
            i <= n == a@.len() == b@.len(),
            x@ == a@,
            y@ == b@,
            forall|j: int| 0 <= j < i ==> same_char_ignoring_case(#[trigger] a@[j], b@[j]),
        decreases n - i,
    {
        let c = x.get_char(i);
        let d = y.get_char(i);
        let cv = c as u32;
        let dv = d as u32;
        if !(c == d || ('A' <= c && c <= 'Z' && dv == cv + 32) || ('A' <= d && d <= 'Z' && cv
            == dv + 32)) {
            return false;
        }
        i = i + 1;
    }
    true
}

fn eq_opt(a: &Option<String>, b: &Option<String>) -> (r: bool)
    ensures
        r == (opt_view(*a) == opt_view(*b)),
{
    match (a, b) {
        (Some(x), Some(y)) => *x == *y,
        (None, None) => true,
        _ => false,
    }
}

impl PartialEq for Iri {
    fn eq(&self, other: &Iri) -> (r: bool)
        ensures
            r == iri_equiv(self@, other@),
    {
        let scheme_eq = match (&self.scheme, &other.scheme) {
            (Some(x), Some(y)) => eq_ignoring_case(x, y),
            (None, None) => true,
            _ => false,
        };
        let authority_eq = match (&self.authority, &other.authority) {
            (Some(x), Some(y)) => eq_opt(&x.userinfo, &y.userinfo) && eq_ignoring_case(
                &x.host,
                &y.host,
            ) && eq_opt(&x.port, &y.port),
            (None, None) => true,
            _ => false,
        };
        scheme_eq && authority_eq && self.path == other.path && eq_opt(&self.query, &other.query)
            && eq_opt(&self.fragment, &other.fragment)
    }
}

impl vstd::std_specs::cmp::PartialEqSpecImpl for Iri {
    open spec fn obeys_eq_spec() -> bool {
        true
    }

    open spec fn eq_spec(&self, other: &Iri) -> bool {
        iri_equiv(self@, other@)
    }
}

fn clone_opt(o: &Option<String>) -> (r: Option<String>)
    ensures
        opt_view(r) == opt_view(*o),
{
    match o {
        Some(x) => Some(x.clone()),
        None => None,
    }
}

fn substring(s: &str, lo: usize, hi: usize) -> (r: String)
    requires
        lo <= hi <= s@.len(),
    ensures
        r@ == s@.subrange(lo as int, hi as int),
{
    String::from_str(s.substring_char(lo, hi))
}

fn check_scheme(s: &str, c: usize) -> (r: bool)
    requires
        c <= s@.len(),
    ensures
        r == valid_scheme(s@.subrange(0, c as int)),
{
    let ghost t = s@.subrange(0, c as int);
    if c == 0 || !is_alpha_exec(s.get_char(0)) {
        return false;
    }
    let mut i: usize = 0;
    while i < c
        invariant
            i <= c <= s@.len(),
            t == s@.subrange(0, c as int),
            forall|j: int| 0 <= j < i ==> is_scheme_char(#[trigger] t[j]),
        decreases c - i,
    {
        let ch = s.get_char(i);
        if !(is_alpha_exec(ch) || ('0' <= ch && ch <= '9') || ch == '+' || ch == '-' || ch == '.') {
            assert(!is_scheme_char(t[i as int]));
            return false;
        }
        i = i + 1;
    }
    true
}

fn check_port(s: &str, lo: usize, hi: usize) -> (r: bool)
    requires
        lo <= hi <= s@.len(),
    ensures
        r == valid_port(s@.subrange(lo as int, hi as int)),
{
    let ghost t = s@.subrange(lo as int, hi as int);
    let mut i = lo;
    while i < hi
        invariant
            lo <= i <= hi <= s@.len(),
            t == s@.subrange(lo as int, hi as int),
            forall|j: int| 0 <= j < i - lo ==> is_digit(#[trigger] t[j]),
        decreases hi - i,
    {
        let ch = s.get_char(i);
        if !('0' <= ch && ch <= '9') {
            assert(!is_digit(t[i - lo]));
            return false;
        }
        i = i + 1;
    }
    true
}

fn parse_authority(s: &str, lo: usize, hi: usize) -> (r: Option<Authority>)
    requires
        lo <= hi <= s@.len(),
    ensures
        authority_spec(s@, lo as int, hi as int) == match r {
            Some(a) => Some(a@),
            None => None::<AuthorityView>,
        },
{
    proof {
        lemma_idx_of(s@, lo as int, hi as int, '@');
    }
    let u = find_char(s, lo, hi, '@');
    let hs = if u < hi { u + 1 } else { lo };
    let bracket = hs < hi && s.get_char(hs) == '[';
    proof {
        lemma_idx_of(s@, hs as int, hi as int, ']');
        lemma_idx_of(s@, hs as int, hi as int, ':');
    }
    let b = find_char(s, hs, hi, ']');
    let he = if bracket {
        if b < hi { b + 1 } else { hi }
    } else {
        find_char(s, hs, hi, ':')
    };
    let user_ok = u == hi || check_range(s, lo, u, CharClass::UserInfo);
    let host_ok = if bracket {
        b < hi && check_ipv6(s, hs + 1, b)
    } else {
        check_range(s, hs, he, CharClass::RegName)
    };
    let port_ok = he == hi || (s.get_char(he) == ':' && check_port(s, he + 1, hi));
    if user_ok && host_ok && port_ok {
        let userinfo = if u < hi { Some(substring(s, lo, u)) } else { None };
        let port = if he < hi { Some(substring(s, he + 1, hi)) } else { None };
        let a = Authority { userinfo, host: substring(s, hs, he), port };
        assert(a@ == authority_spec(s@, lo as int, hi as int)->0);
        Some(a)
    } else {
        None
    }
}

impl Iri {
    /// Parses `s` as an IRI reference: the empty text, or
    /// `scheme ":" hier-part ["?" query] ["#" fragment]`.
    pub fn parse(s: &str) -> (r: Result<Iri, IriError>)
        ensures
            parse_spec(s@) == match r {
                Ok(iri) => Ok(iri@),
                Err(e) => Err::<IriView, IriError>(e),
            },
            r is Ok ==> iri_wf(r->Ok_0@) && render(r->Ok_0@) == s@,
            r is Ok ==> forall|i: int| 0 <= i < s@.len() ==> !is_white_space(#[trigger] s@[i]),
    {
        proof {
            if parse_spec(s@) is Ok {
                lemma_parsed_wf(s@, parse_spec(s@)->Ok_0);
                lemma_render_parse(s@, parse_spec(s@)->Ok_0);
                lemma_parsed_chars(s@);
                assert forall|i: int| 0 <= i < s@.len() implies !is_white_space(#[trigger] s@[i]) by {
                    assert(is_iri_char(s@[i]));
                }
            }
        }
        let n = s.unicode_len();
        if n == 0 {
            let iri = Iri { scheme: None, authority: None, path: String::new(), query: None, fragment: None };
            assert(iri@ == empty_view());
            return Ok(iri);
        }
        proof {
            lemma_idx_of(s@, 0, n as int, ':');
        }
        let c = find_char(s, 0, n, ':');
        if c == n || !check_scheme(s, c) {
            return Err(IriError::InvalidScheme);
        }
        proof {
            lemma_idx_of(s@, c + 1, n as int, '#');
        }
        let h = find_char(s, c + 1, n, '#');
        proof {
            lemma_idx_of(s@, c + 1, h as int, '?');
        }
        let q = find_char(s, c + 1, h, '?');
        let has_auth = q - c >= 3 && s.get_char(c + 1) == '/' && s.get_char(c + 2) == '/';
        let e = if has_auth { find_char(s, c + 3, q, '/') } else { c + 1 };
        let authority = if has_auth {
            match parse_authority(s, c + 3, e) {
                Some(a) => Some(a),
                None => {
                    return Err(IriError::InvalidAuthority);
                },
            }
        } else {
            None
        };
        if !check_range(s, e, q, CharClass::Path) {
            return Err(IriError::InvalidPath);
        }
        if q < h && !check_range(s, q + 1, h, CharClass::Query) {
            return Err(IriError::InvalidQuery);
        }
        if h < n {
            let f = find_bad(s, h + 1, n, CharClass::Fragment);
            if f < n {
                if s.get_char(f) == '#' {
                    return Err(IriError::MultipleFragments);
                }
                return Err(IriError::InvalidFragment);
            }
        }
        let scheme = Some(substring(s, 0, c));
        let path = substring(s, e, q);
        let query = if q < h { Some(substring(s, q + 1, h)) } else { None };
        let fragment = if h < n { Some(substring(s, h + 1, n)) } else { None };
        let ghost v = IriView {
            scheme: opt_view(scheme),
            authority: opt_authority_view(authority),
            path: path@,
            query: opt_view(query),
            fragment: opt_view(fragment),
        };
        assert(v == parse_spec(s@)->Ok_0);
        let iri = Iri { scheme, authority, path, query, fragment };
        assert(iri@ == v);
        Ok(iri)
    }

    /// The scheme; `None` only for the empty relative reference.
    pub fn scheme(&self) -> (r: Option<String>)
        ensures
            opt_view(r) == self@.scheme,
    {
        clone_opt(&self.scheme)
    }

    /// The user information of the authority, if any.
    pub fn userinfo(&self) -> (r: Option<String>)
        ensures
            opt_view(r) == match self@.authority {
                Some(a) => a.userinfo,
                None => None,
            },
    {
        match &self.authority {
            Some(a) => clone_opt(&a.userinfo),
            None => None,
        }
    }

    /// The host of the authority, if any.
    pub fn host(&self) -> (r: Option<String>)
        ensures
            opt_view(r) == match self@.authority {
                Some(a) => Some(a.host),
                None => None,
            },
    {
        match &self.authority {
            Some(a) => Some(a.host.clone()),
            None => None,
        }
    }

    /// The port of the authority, if any.
    pub fn port(&self) -> (r: Option<String>)
        ensures
            opt_view(r) == match self@.authority {
                Some(a) => a.port,
                None => None,
            },
    {
        match &self.authority {
            Some(a) => clone_opt(&a.port),
            None => None,
        }
    }

    /// The path (possibly empty).
    pub fn path(&self) -> (r: String)
        ensures
            r@ == self@.path,
    {
        self.path.clone()
    }

    /// The query, if any.
    pub fn query(&self) -> (r: Option<String>)
        ensures
            opt_view(r) == self@.query,
    {
        clone_opt(&self.query)
    }

    /// The fragment, if any; it is stored exactly as written.
    pub fn fragment(&self) -> (r: Option<String>)
        ensures
            opt_view(r) == self@.fragment,
    {
        clone_opt(&self.fragment)
    }

    /// The canonical text of this IRI.
    pub fn to_text(&self) -> (r: String)
        ensures
            r@ == render(self@),
            parse_spec(r@) == Ok::<IriView, IriError>(self@),
            iri_chars(r@),
    {
        proof {
            use_type_invariant(self);
            lemma_parsed_chars(render(self@));
        }
        let mut out = String::new();
        if let Some(x) = &self.scheme {
            out.append(x.as_str());
            out.append(":");
            proof {
                reveal_strlit(":");
            }
        }
        assert(out@ =~= match self@.scheme {
            Some(x) => x + seq![':'],
            None => Seq::empty(),
        });
        let ghost before = out@;
        if let Some(a) = &self.authority {
            out.append("//");
            append_authority(&mut out, a);
            proof {
                reveal_strlit("//");
                assert(out@ =~= before + (seq!['/', '/'] + render_authority(a@)));
            }
        }
        out.append(self.path.as_str());
        proof {
            reveal_strlit("?");
            reveal_strlit("#");
            assert("?"@ =~= seq!['?']);
            assert("#"@ =~= seq!['#']);
        }
        append_delimited(&mut out, "?", '?', &self.query);
        append_delimited(&mut out, "#", '#', &self.fragment);
        assert(out@ =~= render(self@));
        out
    }
}

/// Appends `d` and the text of `o` when `o` holds one.
fn append_delimited(out: &mut String, ds: &str, d: char, o: &Option<String>)
    requires
        ds@ == seq![d],
    ensures
        final(out)@ == old(out)@ + opt_prefix(opt_view(*o), d),
{
    if let Some(x) = o {
        out.append(ds);
        out.append(x.as_str());
        assert(final(out)@ =~= old(out)@ + opt_prefix(opt_view(*o), d));
    } else {
        assert(out@ =~= old(out)@ + opt_prefix(opt_view(*o), d));
    }
}

fn append_authority(out: &mut String, a: &Authority)
    ensures
        final(out)@ == old(out)@ + render_authority(a@),
{
    if let Some(u) = &a.userinfo {
        out.append(u.as_str());
        out.append("@");
        proof {
            reveal_strlit("@");
        }
    }
    out.append(a.host.as_str());
    proof {
        reveal_strlit(":");
        assert(":"@ =~= seq![':']);
    }
    append_delimited(out, ":", ':', &a.port);
    assert(out@ =~= old(out)@ + render_authority(a@));
}

proof fn lemma_render_authority(s: Seq<char>, lo: int, hi: int)
    requires
        0 <= lo <= hi <= s.len(),
        authority_spec(s, lo, hi) is Some,
    ensures
        render_authority(authority_spec(s, lo, hi)->0) == s.subrange(lo, hi),
{
    lemma_idx_of(s, lo, hi, '@');
    let u = idx_of(s, lo, hi, '@');
    let hs = if u < hi { u + 1 } else { lo };
    lemma_idx_of(s, hs, hi, ']');
    lemma_idx_of(s, hs, hi, ':');
    assert(render_authority(authority_spec(s, lo, hi)->0) =~= s.subrange(lo, hi));
}

/// A character that may stand inside `<` and `>` in the line-based format: no
/// control character, no white space, none of `<>"{}|^`\\`.
pub open spec fn is_iri_char(c: char) -> bool {
    c as u32 > 0x20 && !is_white_space(c) && c != '<' && c != '>' && c != '"' && c != '{' && c != '}' && c != '|' && c != '^'
        && c != '`' && c != '\\'
}

pub open spec fn iri_chars(t: Seq<char>) -> bool {
    forall|i: int| 0 <= i < t.len() ==> is_iri_char(#[trigger] t[i])
}

proof fn lemma_range_chars(s: Seq<char>, lo: int, hi: int, k: CharClass)
    requires
        0 <= lo <= hi <= s.len(),
        valid_range(s, lo, hi, k),
    ensures
        forall|i: int| lo <= i < hi ==> is_iri_char(#[trigger] s[i]),
{
    assert forall|i: int| lo <= i < hi implies is_iri_char(#[trigger] s[i]) by {
        assert(char_ok(s, i, hi, k));
    }
}

proof fn lemma_authority_chars(s: Seq<char>, lo: int, hi: int)
    requires
        0 <= lo <= hi <= s.len(),
        authority_spec(s, lo, hi) is Some,
    ensures
        forall|i: int| lo <= i < hi ==> is_iri_char(#[trigger] s[i]),
{
    lemma_idx_of(s, lo, hi, '@');
    let u = idx_of(s, lo, hi, '@');
    let hs = if u < hi { u + 1 } else { lo };
    lemma_idx_of(s, hs, hi, ']');
    lemma_idx_of(s, hs, hi, ':');
    let bracket = hs < hi && s[hs] == '[';
    let b = idx_of(s, hs, hi, ']');
    let he = if bracket { b + 1 } else { idx_of(s, hs, hi, ':') };
    if u < hi {
        lemma_range_chars(s, lo, u, CharClass::UserInfo);
    }
    if !bracket {
        lemma_range_chars(s, hs, he, CharClass::RegName);
    }
    if bracket && b < hi {
        lemma_ipv6_chars(s.subrange(hs + 1, b));
    }
    assert forall|i: int| lo <= i < hi implies is_iri_char(#[trigger] s[i]) by {
        if bracket && hs < i < b {
            assert(s.subrange(hs + 1, b)[i - hs - 1] == s[i]);
        }
        if he < i {
            assert(s.subrange(he + 1, hi)[i - he - 1] == s[i]);
        }
    }
}

/// Every character of a text that parses may stand inside `<` and `>`.
pub proof fn lemma_parsed_chars(s: Seq<char>)
    requires
        parse_spec(s) is Ok,
    ensures
        iri_chars(s),
{
    let n = s.len() as int;
    if n > 0 {
        lemma_idx_of(s, 0, n, ':');
        let c = idx_of(s, 0, n, ':');
        lemma_idx_of(s, c + 1, n, '#');
        let h = idx_of(s, c + 1, n, '#');
        lemma_idx_of(s, c + 1, h, '?');
        let q = idx_of(s, c + 1, h, '?');
        let has_auth = c + 3 <= q && s[c + 1] == '/' && s[c + 2] == '/';
        let e = if has_auth { idx_of(s, c + 3, q, '/') } else { c + 1 };
        if has_auth {
            lemma_idx_of(s, c + 3, q, '/');
            lemma_authority_chars(s, c + 3, e);
        }
        lemma_range_chars(s, e, q, CharClass::Path);
        if q < h {
            lemma_range_chars(s, q + 1, h, CharClass::Query);
        }
        if h < n {
            lemma_range_chars(s, h + 1, n, CharClass::Fragment);
        }
        assert forall|i: int| 0 <= i < n implies is_iri_char(#[trigger] s[i]) by {
            if i < c {
                assert(s.subrange(0, c)[i] == s[i]);
            }
        }
    }
}

proof fn lemma_range_text(s: Seq<char>, lo: int, hi: int, k: CharClass)
    requires
        0 <= lo <= hi <= s.len(),
        valid_range(s, lo, hi, k),
    ensures
        valid_text(s.subrange(lo, hi), k),
{
    let t = s.subrange(lo, hi);
    assert forall|i: int| 0 <= i < t.len() implies #[trigger] char_ok(t, i, t.len() as int, k) by {
        assert(char_ok(s, lo + i, hi, k));
    }
}

proof fn lemma_authority_wf(s: Seq<char>, lo: int, hi: int)
    requires
        0 <= lo <= hi <= s.len(),
        authority_spec(s, lo, hi) is Some,
    ensures
        authority_wf(authority_spec(s, lo, hi)->0),
{
    lemma_idx_of(s, lo, hi, '@');
    let u = idx_of(s, lo, hi, '@');
    let hs = if u < hi { u + 1 } else { lo };
    lemma_idx_of(s, hs, hi, ']');
    lemma_idx_of(s, hs, hi, ':');
    let bracket = hs < hi && s[hs] == '[';
    let b = idx_of(s, hs, hi, ']');
    if u < hi {
        lemma_range_text(s, lo, u, CharClass::UserInfo);
    }
    if bracket {
        let host = s.subrange(hs, b + 1);
        assert(host.subrange(1, host.len() - 1) =~= s.subrange(hs + 1, b));
    } else {
        lemma_range_text(s, hs, idx_of(s, hs, hi, ':'), CharClass::RegName);
    }
}

/// Every successful parse is well formed.
pub proof fn lemma_parsed_wf(s: Seq<char>, v: IriView)
    requires
        parse_spec(s) == Ok::<IriView, IriError>(v),
    ensures
        iri_wf(v),
{
    let n = s.len() as int;
    if n > 0 {
        lemma_idx_of(s, 0, n, ':');
        let c = idx_of(s, 0, n, ':');
        lemma_idx_of(s, c + 1, n, '#');
        let h = idx_of(s, c + 1, n, '#');
        lemma_idx_of(s, c + 1, h, '?');
        let q = idx_of(s, c + 1, h, '?');
        let has_auth = c + 3 <= q && s[c + 1] == '/' && s[c + 2] == '/';
        let e = if has_auth { idx_of(s, c + 3, q, '/') } else { c + 1 };
        if has_auth {
            lemma_idx_of(s, c + 3, q, '/');
            lemma_authority_wf(s, c + 3, e);
        }
        lemma_range_text(s, e, q, CharClass::Path);
        if q < h {
            lemma_range_text(s, q + 1, h, CharClass::Query);
        }
        if h < n {
            lemma_range_text(s, h + 1, n, CharClass::Fragment);
        }
    } else {
        assert(valid_text(v.path, CharClass::Path));
    }
}

/// Rendering the result of a successful parse gives back the parsed text.
pub proof fn lemma_render_parse(s: Seq<char>, v: IriView)
    requires
        parse_spec(s) == Ok::<IriView, IriError>(v),
    ensures
        render(v) == s,
{
    let n = s.len() as int;
    if n == 0 {
        assert(render(v) =~= s);
    } else {
        lemma_idx_of(s, 0, n, ':');
        let c = idx_of(s, 0, n, ':');
        lemma_idx_of(s, c + 1, n, '#');
        let h = idx_of(s, c + 1, n, '#');
        lemma_idx_of(s, c + 1, h, '?');
        let q = idx_of(s, c + 1, h, '?');
        let has_auth = c + 3 <= q && s[c + 1] == '/' && s[c + 2] == '/';
        if has_auth {
            lemma_idx_of(s, c + 3, q, '/');
            let e = idx_of(s, c + 3, q, '/');
            lemma_render_authority(s, c + 3, e);
        }
        assert(render(v) =~= s);
    }
}

/// Round trip: re-rendering a parsed IRI into its canonical text and parsing
/// that text again yields the same IRI.
pub proof fn lemma_round_trip(s: Seq<char>, v: IriView)
    requires
        parse_spec(s) == Ok::<IriView, IriError>(v),
    ensures
        parse_spec(render(v)) == Ok::<IriView, IriError>(v),
{
    lemma_render_parse(s, v);
}

// ---------------------------------------------------------------------------
// Percent decoding, on demand
// ---------------------------------------------------------------------------

/// The value of a hex digit.
pub open spec fn hex_value(c: char) -> u8 {
    if is_digit(c) {
        (c as u32 - '0' as u32) as u8
    } else if 'a' <= c && c <= 'f' {
        (c as u32 - 'a' as u32 + 10) as u8
    } else {
        (c as u32 - 'A' as u32 + 10) as u8
    }
}

/// The bytes that `t` stands for: each `%` followed by two hex digits is the
/// byte they spell, every other character is its UTF-8 encoding.
pub open spec fn percent_decode_spec(t: Seq<char>) -> Seq<u8>
    decreases t.len(),
{
    if t.len() == 0 {
        Seq::empty()
    } else if t[0] == '%' && t.len() >= 3 && is_hex(t[1]) && is_hex(t[2]) {
        seq![(hex_value(t[1]) * 16 + hex_value(t[2])) as u8] + percent_decode_spec(
            t.subrange(3, t.len() as int),
        )
    } else {
        encode_scalar(t[0] as u32) + percent_decode_spec(t.subrange(1, t.len() as int))
    }
}

fn hex_value_exec(c: char) -> (r: u8)
    requires
        is_hex(c),
    ensures
        r == hex_value(c),
        r < 16,
{
    let v = c as u32;
    if '0' <= c && c <= '9' {
        (v - '0' as u32) as u8
    } else if 'a' <= c && c <= 'f' {
        (v - 'a' as u32 + 10) as u8
    } else {
        (v - 'A' as u32 + 10) as u8
    }
}

fn push_utf8(out: &mut Vec<u8>, c: char)
    ensures
        final(out)@ == old(out)@ + encode_scalar(c as u32),
{
    let v = c as u32;
    if v <= 0x7F {
        out.push((v & 0x7F) as u8);
    } else if v <= 0x7FF {
        out.push(0xC0 | ((v >> 6) & 0x1F) as u8);
        out.push(0x80 | (v & 0x3F) as u8);
    } else if v <= 0xFFFF {
        out.push(0xE0 | ((v >> 12) & 0x0F) as u8);
        out.push(0x80 | ((v >> 6) & 0x3F) as u8);
        out.push(0x80 | (v & 0x3F) as u8);
    } else {
        out.push(0xF0 | ((v >> 18) & 0x7) as u8);
        out.push(0x80 | ((v >> 12) & 0x3F) as u8);
        out.push(0x80 | ((v >> 6) & 0x3F) as u8);
        out.push(0x80 | (v & 0x3F) as u8);
    }
    assert(out@ =~= old(out)@ + encode_scalar(c as u32));
}

/// Decodes the percent-encoded triplets of a component's text into bytes;
/// validation never does this, it is only done when asked for.
pub fn percent_decode(text: &str) -> (r: Vec<u8>)
    ensures
        r@ == percent_decode_spec(text@),
{
    let n = text.unicode_len();
    let mut out: Vec<u8> = Vec::new();
    let mut i: usize = 0;
    assert(text@.subrange(0, n as int) =~= text@);
    while i < n
        invariant
            i <= n == text@.len(),
            percent_decode_spec(text@) == out@ + percent_decode_spec(text@.subrange(i as int, n as int)),
        decreases n - i,
    {
        let ghost rest = text@.subrange(i as int, n as int);
        let c = text.get_char(i);
        if c == '%' && n - i >= 3 && is_hex_exec(text.get_char(i + 1)) && is_hex_exec(text.get_char(i + 2)) {
            let hi = hex_value_exec(text.get_char(i + 1));
            let lo = hex_value_exec(text.get_char(i + 2));
            out.push(hi * 16 + lo);
            assert(rest.subrange(3, rest.len() as int) =~= text@.subrange(i + 3, n as int));
            i = i + 3;
        } else {
            push_utf8(&mut out, c);
            assert(rest.subrange(1, rest.len() as int) =~= text@.subrange(i + 1, n as int));
            i = i + 1;
        }
    }
    assert(text@.subrange(n as int, n as int) =~= Seq::<char>::empty());
    out
}

} // verus!
