use vstd::prelude::*;
use vstd::std_specs::iter::IteratorSpec;
use vstd::string::{StrSliceExecFns, StringExecFns};
use vstd::utf8::{decode_utf8, valid_utf8};

use crate::error::ParseError;
use crate::text::utf8_string;

verus! {

broadcast use vstd::std_specs::vec::axiom_vec_index_decreases;

// ---------------------------------------------------------------------------
// Scene document
// ---------------------------------------------------------------------------

/// A property of a node: name, kind and raw value text.
pub struct UsdProperty {
    pub name: String,
    pub kind: String,
    pub value: String,
}

/// A `def <kind> "<name>" { ... }` block and what it encloses.
pub struct UsdNode {
    pub name: String,
    pub kind: String,
    pub properties: Vec<UsdProperty>,
    pub children: Vec<UsdPart>,
}

/// The text of a `#` comment, without the `#`.
pub struct UsdComment(pub String);

/// One element of a document or of a node's body.
pub enum UsdPart {
    Node(UsdNode),
    Comment(UsdComment),
}

/// A parsed scene document: its top-level parts in text order.
pub struct Usd {
    pub parts: Vec<UsdPart>,
}

/// The mathematical content of a [`UsdProperty`].
pub struct UsdPropertyView {
    pub name: Seq<char>,
    pub kind: Seq<char>,
    pub value: Seq<char>,
}

/// The mathematical content of a [`UsdPart`].
pub enum UsdPartView {
    Node {
        name: Seq<char>,
        kind: Seq<char>,
        properties: Seq<UsdPropertyView>,
        children: Seq<UsdPartView>,
    },
    Comment(Seq<char>),
}

impl View for UsdProperty {
    type V = UsdPropertyView;

    open spec fn view(&self) -> UsdPropertyView {
        UsdPropertyView { name: self.name@, kind: self.kind@, value: self.value@ }
    }
}

/// The view of a part, with its whole subtree.
pub open spec fn part_view(p: UsdPart) -> UsdPartView
    decreases p, 0int,
{
    match p {
        UsdPart::Node(n) => UsdPartView::Node {
            name: n.name@,
            kind: n.kind@,
            properties: n.properties@.map_values(|q: UsdProperty| q@),
            children: parts_view(n.children, n.children.len() as int),
        },
        UsdPart::Comment(c) => UsdPartView::Comment(c.0@),
    }
}

/// The views of the first `k` parts of `v`.
pub open spec fn parts_view(v: Vec<UsdPart>, k: int) -> Seq<UsdPartView>
    decreases v, k,
{
    if k <= 0 || k > v.len() {
        seq![]
    } else {
        parts_view(v, k - 1).push(part_view(v[k - 1]))
    }
}

impl View for UsdPart {
    type V = UsdPartView;

    open spec fn view(&self) -> UsdPartView {
        part_view(*self)
    }
}

impl View for Usd {
    type V = Seq<UsdPartView>;

    open spec fn view(&self) -> Seq<UsdPartView> {
        parts_view(self.parts, self.parts.len() as int)
    }
}

/// Parts views depend only on the parts themselves.
proof fn lemma_parts_view_prefix(v1: Vec<UsdPart>, v2: Vec<UsdPart>, k: int)
    requires
        0 <= k <= v1.len(),
        k <= v2.len(),
        forall|i: int| 0 <= i < k ==> v1[i] == v2[i],
    ensures
        parts_view(v1, k) == parts_view(v2, k),
    decreases k,
{
    if k > 0 {
        lemma_parts_view_prefix(v1, v2, k - 1);
    }
}

/// Pushing a part extends the view by that part's view.
proof fn lemma_parts_view_push(v1: Vec<UsdPart>, v2: Vec<UsdPart>, p: UsdPart)
    requires
        v2@ == v1@.push(p),
    ensures
        parts_view(v2, v2.len() as int) == parts_view(v1, v1.len() as int).push(part_view(p)),
{
    lemma_parts_view_prefix(v1, v2, v1.len() as int);
    assert(v2[v1.len() as int] == p);
}

// ---------------------------------------------------------------------------
// Grammar
// ---------------------------------------------------------------------------

/// The character classes that the grammar scans runs of.
#[derive(Clone, Copy)]
pub enum CharClass {
    /// Space, tab, carriage return, line feed.
    Space,
    /// ASCII letters.
    Alpha,
    /// Anything but a double quote.
    NotQuote,
    /// Anything but a line end.
    NotLineEnd,
}

pub open spec fn in_class(c: char, k: CharClass) -> bool {
    match k {
        CharClass::Space => c == ' ' || c == '\t' || c == '\r' || c == '\n',
        CharClass::Alpha => ('a' <= c && c <= 'z') || ('A' <= c && c <= 'Z'),
        CharClass::NotQuote => c != '"',
        CharClass::NotLineEnd => c != '\n' && c != '\r',
    }
}

/// The length of the run of characters of class `k` that starts at `i`.
pub open spec fn run_len(s: Seq<char>, i: int, k: CharClass) -> nat
    decreases s.len() - i,
{
    if 0 <= i < s.len() && in_class(s[i], k) {
        1 + run_len(s, i + 1, k)
    } else {
        0
    }
}

/// A quoted string at `d`: its content ends at the returned position, which
/// holds the closing quote.
pub open spec fn spec_quoted_string(s: Seq<char>, d: int) -> Result<int, ParseError> {
    if !(0 <= d < s.len() && s[d] == '"') {
        Err(ParseError::GrammarMismatch)
    } else {
        let e = d + 1 + run_len(s, d + 1, CharClass::NotQuote);
        if e >= s.len() {
            Err(ParseError::GrammarMismatch)
        } else {
            Ok(e)
        }
    }
}

/// `def` at position `i`.
pub open spec fn starts_with_def(s: Seq<char>, i: int) -> bool {
    0 <= i && i + 3 <= s.len() && s[i] == 'd' && s[i + 1] == 'e' && s[i + 2] == 'f'
}

/// A node at `i`: `def`, space, a kind of ASCII letters, space, a quoted name,
/// optional space, `{`, the body's parts, `}`. Gives the node and the position
/// after its `}`.
pub open spec fn spec_node(s: Seq<char>, i: int) -> Result<(UsdPartView, int), ParseError>
    decreases s.len() - i, 0int,
{
    if !starts_with_def(s, i) {
        Err(ParseError::GrammarMismatch)
    } else {
        let ws1 = run_len(s, i + 3, CharClass::Space);
        let b = i + 3 + ws1;
        let c = b + run_len(s, b, CharClass::Alpha);
        let ws2 = run_len(s, c, CharClass::Space);
        let d = c + ws2;
        if ws1 == 0 || c == b || ws2 == 0 {
            Err(ParseError::GrammarMismatch)
        } else {
            match spec_quoted_string(s, d) {
                Err(x) => Err(x),
                Ok(e) => {
                    let f = e + 1 + run_len(s, e + 1, CharClass::Space);
                    if f >= s.len() || s[f] != '{' {
                        Err(ParseError::GrammarMismatch)
                    } else {
                        match spec_parts(s, f + 1, true) {
                            Err(x) => Err(x),
                            Ok((children, g)) => Ok((
                                UsdPartView::Node {
                                    name: s.subrange(d + 1, e),
                                    kind: s.subrange(b, c),
                                    properties: seq![],
                                    children,
                                },
                                g + 1,
                            )),
                        }
                    }
                },
            }
        }
    }
}

/// A part at `j`: a comment when it starts with `#`, a node otherwise.
pub open spec fn spec_part(s: Seq<char>, j: int) -> Result<(UsdPartView, int), ParseError>
    decreases s.len() - j, 1int,
{
    if 0 <= j < s.len() && s[j] == '#' {
        let e = j + 1 + run_len(s, j + 1, CharClass::NotLineEnd);
        Ok((UsdPartView::Comment(s.subrange(j + 1, e)), e))
    } else {
        spec_node(s, j)
    }
}

/// The parts from `i` on, each after optional space. In a node's body
/// (`nested`) they end at a `}`, whose position is returned; at the top level
/// they end at the end of the text.
pub open spec fn spec_parts(s: Seq<char>, i: int, nested: bool) -> Result<(Seq<UsdPartView>, int), ParseError>
    decreases s.len() - i, 2int,
{
    if !(0 <= i <= s.len()) {
        Err(ParseError::GrammarMismatch)
    } else {
        let j = i + run_len(s, i, CharClass::Space);
        if j >= s.len() {
            if nested {
                Err(ParseError::GrammarMismatch)
            } else {
                Ok((seq![], j))
            }
        } else if nested && s[j] == '}' {
            Ok((seq![], j))
        } else {
            match spec_part(s, j) {
                Err(x) => Err(x),
                Ok((p, k)) => if i < k <= s.len() {
                    match spec_parts(s, k, nested) {
                        Err(x) => Err(x),
                        Ok((rest, end)) => Ok((seq![p] + rest, end)),
                    }
                } else {
                    Err(ParseError::GrammarMismatch)
                },
            }
        }
    }
}

/// The document that `s` spells.
pub open spec fn spec_document(s: Seq<char>) -> Result<Seq<UsdPartView>, ParseError> {
    match spec_parts(s, 0, false) {
        Ok((parts, _)) => Ok(parts),
        Err(x) => Err(x),
    }
}

/// The document that the bytes `b` spell, once decoded as UTF-8.
pub open spec fn spec_usd(b: Seq<u8>) -> Result<Seq<UsdPartView>, ParseError> {
    if valid_utf8(b) {
        spec_document(decode_utf8(b))
    } else {
        Err(ParseError::InvalidEncoding)
    }
}

// ---------------------------------------------------------------------------
// Parser
// ---------------------------------------------------------------------------

/// The characters of `text`, in order.
pub fn chars_of(text: &str) -> (r: Vec<char>)
    ensures
        r@ == text@,
{
    broadcast use vstd::string::axiom_spec_iter, vstd::string::next_postcondition;

    let mut it = text.chars();
    let mut out: Vec<char> = Vec::new();
    loop
        invariant
            out@ + it.remaining() == text@,
            it.obeys_prophetic_iter_laws(),
            it.decrease() is Some,
        decreases it.decrease()->0,
    {
        let ghost before = it.remaining();
        match it.next() {
            Some(c) => {
                out.push(c);
                assert(out@ + it.remaining() =~= text@);
            },
            None => {
                assert(out@ + before =~= out@);
                return out;
            },
        }
    }
}

fn is_in_class(c: char, k: CharClass) -> (r: bool)
    ensures
        r == in_class(c, k),
{
    match k {
        CharClass::Space => c == ' ' || c == '\t' || c == '\r' || c == '\n',
        CharClass::Alpha => ('a' <= c && c <= 'z') || ('A' <= c && c <= 'Z'),
        CharClass::NotQuote => c != '"',
        CharClass::NotLineEnd => c != '\n' && c != '\r',
    }
}

/// The end of the run of characters of class `k` that starts at `i`.
pub fn scan(s: &[char], i: usize, k: CharClass) -> (r: usize)
    requires
        i <= s@.len(),
    ensures
        r == i + run_len(s@, i as int, k),
        r <= s@.len(),
{
    let mut j = i;
    while j < s.len() && is_in_class(s[j], k)
        invariant
            i <= j <= s@.len(),
            run_len(s@, i as int, k) == (j - i) + run_len(s@, j as int, k),
        decreases s@.len() - j,
    {
        j = j + 1;
    }
    j
}

/// The characters `from..to` of `text` as a string.
fn substring(text: &str, from: usize, to: usize) -> (r: String)
    requires
        from <= to <= text@.len(),
    ensures
        r@ == text@.subrange(from as int, to as int),
{
    String::from_str(text.substring_char(from, to))
}

/// Parses a quoted string whose opening quote is at `d`: gives its content and
/// the position after the closing quote.
pub fn quoted_string(text: &str, s: &[char], d: usize) -> (r: Result<(String, usize), ParseError>)
    requires
        text@ == s@,
    ensures
        match r {
            Ok((name, after)) => spec_quoted_string(s@, d as int) == Ok::<int, ParseError>(after - 1)
                && name@ == s@.subrange(d + 1, after - 1),
            Err(x) => spec_quoted_string(s@, d as int) == Err::<int, _>(x),
        },
{
    if d >= s.len() || s[d] != '"' {
        return Err(ParseError::GrammarMismatch);
    }
    let e = scan(s, d + 1, CharClass::NotQuote);
    if e >= s.len() {
        return Err(ParseError::GrammarMismatch);
    }
    Ok((substring(text, d + 1, e), e + 1))
}

/// Parses the comment whose `#` is at `j`.
fn parse_usd_comment(text: &str, s: &[char], j: usize) -> (r: (UsdPart, usize))
    requires
        text@ == s@,
        j < s@.len(),
        s@[j as int] == '#',
    ensures
        spec_part(s@, j as int) == Ok::<_, ParseError>((r.0@, r.1 as int)),
        j < r.1 <= s@.len(),
{
    let _len = s.len();
    let e = scan(s, j + 1, CharClass::NotLineEnd);
    (UsdPart::Comment(UsdComment(substring(text, j + 1, e))), e)
}

/// Parses the node that starts at `i`; gives it and the position after its `}`.
pub fn parse_usd_node(text: &str, s: &[char], i: usize) -> (r: Result<(UsdPart, usize), ParseError>)
    requires
        text@ == s@,
    ensures
        match r {
            Ok((p, k)) => spec_node(s@, i as int) == Ok::<_, ParseError>((p@, k as int))
                && i < k <= s@.len(),
            Err(x) => spec_node(s@, i as int) == Err::<(UsdPartView, int), _>(x),
        },
    decreases s@.len() - i, 0int,
{
    let len = s.len();
    if !(i <= len && len - i >= 3 && s[i] == 'd' && s[i + 1] == 'e' && s[i + 2] == 'f') {
        return Err(ParseError::GrammarMismatch);
    }
    let b = scan(s, i + 3, CharClass::Space);
    let c = scan(s, b, CharClass::Alpha);
    let d = scan(s, c, CharClass::Space);
    if b == i + 3 || c == b || d == c {
        return Err(ParseError::GrammarMismatch);
    }
    let (name, after_name) = match quoted_string(text, s, d) {
        Ok(q) => q,
        Err(x) => return Err(x),
    };
    let f = scan(s, after_name, CharClass::Space);
    if f >= len || s[f] != '{' {
        return Err(ParseError::GrammarMismatch);
    }
    let (children, g) = match parse_usd_parts(text, s, f + 1, true) {
        Ok(r) => r,
        Err(x) => return Err(x),
    };
    let kind = substring(text, b, c);
    let node = UsdNode { name, kind, properties: Vec::new(), children };
    proof {
        assert(node.properties@.map_values(|q: UsdProperty| q@) =~= Seq::<UsdPropertyView>::empty());
    }
    Ok((UsdPart::Node(node), g + 1))
}

/// Parses the part (comment or node) that starts at `j`.
pub fn parse_usd_node_part(text: &str, s: &[char], j: usize) -> (r: Result<(UsdPart, usize), ParseError>)
    requires
        text@ == s@,
    ensures
        match r {
            Ok((p, k)) => spec_part(s@, j as int) == Ok::<_, ParseError>((p@, k as int))
                && j < k <= s@.len(),
            Err(x) => spec_part(s@, j as int) == Err::<(UsdPartView, int), _>(x),
        },
    decreases s@.len() - j, 1int,
{
    if j < s.len() && s[j] == '#' {
        Ok(parse_usd_comment(text, s, j))
    } else {
        parse_usd_node(text, s, j)
    }
}

/// Prepends `pre` to a successful parse and keeps an error as it is.
pub open spec fn prepend_usd_parts(
    pre: Seq<UsdPartView>,
    r: Result<(Seq<UsdPartView>, int), ParseError>,
) -> Result<(Seq<UsdPartView>, int), ParseError> {
    match r {
        Ok((rest, end)) => Ok((pre + rest, end)),
        Err(x) => Err(x),
    }
}

/// Parses the parts from `i` on: up to a `}` in a node's body (`nested`), whose
/// position is returned, or up to the end of the text at the top level.
pub fn parse_usd_parts(text: &str, s: &[char], i: usize, nested: bool) -> (r: Result<(Vec<UsdPart>, usize), ParseError>)
    requires
        text@ == s@,
        i <= s@.len(),
    ensures
        match r {
            Ok((v, k)) => spec_parts(s@, i as int, nested) == Ok::<_, ParseError>((parts_view(v, v.len() as int), k as int))
                && i <= k <= s@.len() && (nested ==> k < s@.len()),
            Err(x) => spec_parts(s@, i as int, nested) == Err::<(Seq<UsdPartView>, int), _>(x),
        },
    decreases s@.len() - i, 2int,
{
    let len = s.len();
    let mut parts: Vec<UsdPart> = Vec::new();
    let mut pos = i;
    proof {
        match spec_parts(s@, i as int, nested) {
            Ok((all, end)) => {
                assert(Seq::<UsdPartView>::empty() + all =~= all);
            },
            Err(_) => {},
        }
    }
    loop
        invariant
            len == s@.len(),
            text@ == s@,
            i <= pos <= len,
            spec_parts(s@, i as int, nested) == prepend_usd_parts(
                parts_view(parts, parts.len() as int),
                spec_parts(s@, pos as int, nested),
            ),
        decreases len - pos,
    {
        let j = scan(s, pos, CharClass::Space);
        if j >= len {
            if nested {
                return Err(ParseError::GrammarMismatch);
            }
            assert(parts_view(parts, parts.len() as int) + Seq::<UsdPartView>::empty()
                =~= parts_view(parts, parts.len() as int));
            return Ok((parts, j));
        }
        if nested && s[j] == '}' {
            assert(parts_view(parts, parts.len() as int) + Seq::<UsdPartView>::empty()
                =~= parts_view(parts, parts.len() as int));
            return Ok((parts, j));
        }
        match parse_usd_node_part(text, s, j) {
            Ok((p, k)) => {
                let ghost before = parts;
                let ghost pv = p@;
                parts.push(p);
                proof {
                    lemma_parts_view_push(before, parts, p);
                    let bv = parts_view(before, before.len() as int);
                    match spec_parts(s@, k as int, nested) {
                        Ok((rest, end)) => {
                            assert(bv + (seq![pv] + rest) =~= bv.push(pv) + rest);
                        },
                        Err(_) => {},
                    }
                }
                pos = k;
            },
            Err(x) => {
                return Err(x);
            },
        }
    }
}

/// Parses a whole document: its parts up to the end of the text.
pub fn parse_usd(text: &str, s: &[char]) -> (r: Result<Usd, ParseError>)
    requires
        text@ == s@,
    ensures
        match r {
            Ok(u) => spec_document(s@) == Ok::<_, ParseError>(u@),
            Err(x) => spec_document(s@) == Err::<Seq<UsdPartView>, _>(x),
        },
{
    match parse_usd_parts(text, s, 0, false) {
        Ok((parts, _)) => Ok(Usd { parts }),
        Err(x) => Err(x),
    }
}

impl Usd {
    /// Decodes `buffer` as UTF-8 and parses the text as a scene document.
    pub fn parse(buffer: &[u8]) -> (r: Result<Usd, ParseError>)
        ensures
            match r {
                Ok(u) => spec_usd(buffer@) == Ok::<_, ParseError>(u@),
                Err(x) => spec_usd(buffer@) == Err::<Seq<UsdPartView>, _>(x),
            },
            buffer@.len() == 0 ==> (r matches Ok(u) && u@.len() == 0),
    {
        let text = match utf8_string(vstd::slice::slice_to_vec(buffer)) {
            Some(t) => t,
            None => return Err(ParseError::InvalidEncoding),
        };
        let chars = chars_of(text.as_str());
        parse_usd(text.as_str(), chars.as_slice())
    }
}

// ---------------------------------------------------------------------------
// Nesting depth
// ---------------------------------------------------------------------------

/// The opening of one level of nesting: `def X "n"{`.
pub open spec fn nested_open() -> Seq<char> {
    seq!['d', 'e', 'f', ' ', 'X', ' ', '"', 'n', '"', '{']
}

/// `d` openings followed by `d` closing braces.
#[verifier::opaque]
pub open spec fn nested_text(d: nat) -> Seq<char> {
    Seq::new(11 * d, |i: int| if i < 10 * d { nested_open()[i % 10] } else { '}' })
}

/// A chain of `m` nodes of kind `X` named `n`, each the only child of the one before.
pub open spec fn nested_view(m: nat) -> UsdPartView
    decreases m,
{
    UsdPartView::Node {
        name: seq!['n'],
        kind: seq!['X'],
        properties: seq![],
        children: if m <= 1 {
            seq![]
        } else {
            seq![nested_view((m - 1) as nat)]
        },
    }
}

proof fn lemma_nested_char(d: nat, k: int, j: int)
    requires
        0 <= k < d,
        0 <= j < 10,
    ensures
        nested_text(d).len() == 11 * d,
        nested_text(d)[10 * k + j] == nested_open()[j],
{
    reveal(nested_text);
    assert((10 * k + j) % 10 == j) by (nonlinear_arith)
        requires
            0 <= k,
            0 <= j < 10,
    ;
    assert(10 * k + j < 10 * d) by (nonlinear_arith)
        requires
            k < d,
            j < 10,
    ;
}

proof fn lemma_nested_close(d: nat, x: int)
    requires
        10 * d <= x < 11 * d,
    ensures
        nested_text(d).len() == 11 * d,
        nested_text(d)[x] == '}',
{
    reveal(nested_text);
}

/// The header of level `k` spells kind `X` and name `n`, with its `{` at `10k + 9`.
proof fn lemma_nested_header(d: nat, k: int)
    requires
        0 <= k < d,
    ensures
        nested_text(d).len() == 11 * d,
        starts_with_def(nested_text(d), 10 * k),
        run_len(nested_text(d), 10 * k + 3, CharClass::Space) == 1,
        run_len(nested_text(d), 10 * k + 4, CharClass::Alpha) == 1,
        run_len(nested_text(d), 10 * k + 5, CharClass::Space) == 1,
        spec_quoted_string(nested_text(d), 10 * k + 6) == Ok::<int, ParseError>(10 * k + 8),
        run_len(nested_text(d), 10 * k + 9, CharClass::Space) == 0,
        nested_text(d)[10 * k + 9] == '{',
        nested_text(d).subrange(10 * k + 7, 10 * k + 8) =~= seq!['n'],
        nested_text(d).subrange(10 * k + 4, 10 * k + 5) =~= seq!['X'],
{
    let s = nested_text(d);
    let i = 10 * k;
    lemma_nested_char(d, k, 0);
    lemma_nested_char(d, k, 1);
    lemma_nested_char(d, k, 2);
    lemma_nested_char(d, k, 3);
    lemma_nested_char(d, k, 4);
    lemma_nested_char(d, k, 5);
    lemma_nested_char(d, k, 6);
    lemma_nested_char(d, k, 7);
    lemma_nested_char(d, k, 8);
    lemma_nested_char(d, k, 9);
    assert(s[i] == 'd' && s[i + 1] == 'e' && s[i + 2] == 'f');
    assert(s[i + 3] == ' ' && s[i + 4] == 'X' && s[i + 5] == ' ');
    assert(s[i + 6] == '"' && s[i + 7] == 'n' && s[i + 8] == '"' && s[i + 9] == '{');
    assert(run_len(s, i + 4, CharClass::Space) == 0);
    assert(run_len(s, i + 5, CharClass::Alpha) == 0);
    assert(run_len(s, i + 6, CharClass::Space) == 0);
    assert(run_len(s, i + 8, CharClass::NotQuote) == 0);
    assert(run_len(s, i + 7, CharClass::NotQuote) == 1);
}

proof fn lemma_nested_node(d: nat, k: int)
    requires
        0 <= k < d,
    ensures
        spec_node(nested_text(d), 10 * k) == Ok::<_, ParseError>((nested_view((d - k) as nat), 10 * d + d - k)),
    decreases d - k,
{
    let s = nested_text(d);
    let i = 10 * k;
    lemma_nested_header(d, k);
    let e = 10 * d + d - k;
    if k + 1 < d {
        lemma_nested_node(d, k + 1);
        lemma_nested_header(d, k + 1);
        assert(run_len(s, i + 10, CharClass::Space) == 0);
        assert(spec_part(s, i + 10) == spec_node(s, i + 10));
        let inner = e - 1;
        lemma_nested_close(d, inner);
        assert(run_len(s, inner, CharClass::Space) == 0);
        assert(spec_parts(s, inner, true) == Ok::<_, ParseError>((Seq::<UsdPartView>::empty(), inner)));
        assert(seq![nested_view((d - k - 1) as nat)] + Seq::<UsdPartView>::empty() =~= seq![
            nested_view((d - k - 1) as nat)]);
        assert(spec_parts(s, i + 10, true) == Ok::<_, ParseError>((seq![nested_view((d - k - 1) as nat)], inner)));
    } else {
        lemma_nested_close(d, i + 10);
        assert(run_len(s, i + 10, CharClass::Space) == 0);
        assert(spec_parts(s, i + 10, true) == Ok::<_, ParseError>((Seq::<UsdPartView>::empty(), i + 10)));
    }
}

/// Nesting has no depth limit: `d` nested levels (for every `d`) parse into a
/// chain of exactly `d` nodes.
pub proof fn lemma_nesting_depth(d: nat)
    requires
        d >= 1,
    ensures
        spec_document(nested_text(d)) == Ok::<_, ParseError>(seq![nested_view(d)]),
{
    let s = nested_text(d);
    lemma_nested_node(d, 0);
    lemma_nested_header(d, 0);
    assert(run_len(s, 0, CharClass::Space) == 0);
    assert(spec_part(s, 0) == spec_node(s, 0));
    assert(run_len(s, 11 * d as int, CharClass::Space) == 0);
    assert(spec_parts(s, 11 * d as int, false) == Ok::<_, ParseError>((Seq::<UsdPartView>::empty(), 11 * d as int)));
    assert(seq![nested_view(d)] + Seq::<UsdPartView>::empty() =~= seq![nested_view(d)]);
}

} // verus!
