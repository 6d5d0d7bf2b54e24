//! The parsing protocol: the argument-token cursor and bounded
//! block-body ranges every construct consumes, the tag and block
//! constructors of the dialect, and the registry-driven recursive
//! descent over the lexed elements.
use vstd::prelude::*;

use crate::error::Error;
use crate::error::ErrorKind;
use crate::expression::Expression;
use crate::filters::FilterArguments;
use crate::registry::Language;
use crate::render::CompareOp;
use crate::render::Condition;
use crate::render::ForNode;
use crate::render::IfChangedNode;
use crate::render::IfNode;
use crate::render::Iterable;
use crate::render::Node;
use crate::render::OutputNode;
use crate::render::Template;
use crate::token::lex_elements;
use crate::token::Element;
use crate::token::TokV;
use crate::token::Token;
use crate::value::Value;

verus! {

broadcast use vstd::std_specs::vec::group_vec_axioms;

/// The views of a token list.
pub open spec fn toks_of(v: &Vec<Token>) -> Seq<TokV> {
    Seq::new(v.len() as nat, |i: int| if 0 <= i < v.len() { v[i]@ } else { TokV::Pipe })
}

/// The argument cursor: the unconsumed token stream of one construct's
/// own argument list, consumed exactly once during parsing.
pub struct TagTokenIter {
    tokens: Vec<Token>,
    pos: usize,
}

impl TagTokenIter {
    /// The cursor is within its token list.
    pub closed spec fn wf(&self) -> bool {
        self.pos <= self.tokens.len()
    }

    /// The tokens not yet consumed.
    pub closed spec fn remaining(&self) -> Seq<TokV> {
        toks_of(&self.tokens).skip(self.pos as int)
    }

    /// A cursor over a whole argument token list.
    pub fn new(tokens: Vec<Token>) -> (r: TagTokenIter)
        ensures
            r.wf(),
            r.remaining() == toks_of(&tokens),
    {
        let r = TagTokenIter { tokens, pos: 0 };
        proof {
            assert(r.remaining() =~= toks_of(&r.tokens));
        }
        r
    }

    /// Succeeds exactly when every argument token has been consumed;
    /// unconsumed tokens are a parse error.
    pub fn expect_nothing(&self) -> (r: Result<(), Error>)
        requires
            self.wf(),
        ensures
            r is Ok <==> self.remaining().len() == 0,
            r matches Err(e) ==> e.kind == ErrorKind::Parse,
    {
        if self.pos == self.tokens.len() {
            Ok(())
        } else {
            Err(Error::parse(String::from_str("unexpected trailing arguments")))
        }
    }

    /// Consumes and hands back the next token, if any.
    pub fn next(&mut self) -> (r: Option<Token>)
        requires
            old(self).wf(),
        ensures
            final(self).wf(),
            old(self).remaining().len() == 0 ==> r is None && final(self).remaining() == old(
                self,
            ).remaining(),
            old(self).remaining().len() > 0 ==> (r matches Some(t) && t@ == old(
                self,
            ).remaining()[0] && final(self).remaining() == old(self).remaining().skip(1)),
    {
        if self.pos < self.tokens.len() {
            let t = self.tokens[self.pos].clone();
            self.pos = self.pos + 1;
            proof {
                assert(self.remaining() =~= old(self).remaining().skip(1));
                assert(old(self).remaining()[0] == toks_of(&self.tokens)[old(self).pos as int]);
            }
            Some(t)
        } else {
            proof {
                assert(self.remaining().len() == 0);
            }
            None
        }
    }
}

/// The name under which a tag-marker element parses: its leading
/// identifier token.
pub open spec fn tag_name_of(e: &Element) -> Option<Seq<char>> {
    match e {
        Element::Tag(tokens) => if tokens.len() > 0 {
            match toks_of(tokens)[0] {
                TokV::Ident(name) => Some(name),
                _ => None,
            }
        } else {
            None
        },
        _ => None,
    }
}

/// The index of the close marker that terminates a body opened just
/// before `i`: nested open markers of the same name each consume one
/// close marker, so only the close marker at depth zero matches.
pub open spec fn spec_find_close(
    elems: &Vec<Element>,
    i: int,
    open_name: Seq<char>,
    close_name: Seq<char>,
    depth: int,
) -> Option<int>
    decreases elems.len() - i,
{
    if i < 0 || i >= elems.len() {
        None
    } else if tag_name_of(&elems[i]) == Some(close_name) {
        if depth == 0 {
            Some(i)
        } else {
            spec_find_close(elems, i + 1, open_name, close_name, depth - 1)
        }
    } else if tag_name_of(&elems[i]) == Some(open_name) {
        spec_find_close(elems, i + 1, open_name, close_name, depth + 1)
    } else {
        spec_find_close(elems, i + 1, open_name, close_name, depth)
    }
}

/// How many markers of the given name occur in `[from, to)`.
pub open spec fn count_markers(elems: &Vec<Element>, from: int, to: int, name: Seq<char>) -> int
    decreases to - from,
{
    if from >= to {
        0
    } else {
        (if tag_name_of(&elems[from]) == Some(name) {
            1int
        } else {
            0int
        }) + count_markers(elems, from + 1, to, name)
    }
}

/// Law: the body a close-marker search delimits is balanced. When the
/// search that starts at `i` at the given depth finds its close marker
/// at `m`, the markers in `[i, m)` satisfy opens = closes - depth
/// relative to the found marker: in particular, a body entered at
/// depth zero holds as many nested open markers as close markers, so
/// a same-named construct nested in the body is terminated by its own
/// close marker, not by the one that terminates the outer body.
pub proof fn lemma_find_close_balanced(
    elems: &Vec<Element>,
    i: int,
    open_name: Seq<char>,
    close_name: Seq<char>,
    depth: int,
    m: int,
)
    requires
        open_name != close_name,
        spec_find_close(elems, i, open_name, close_name, depth) == Some(m),
    ensures
        i <= m < elems.len(),
        tag_name_of(&elems[m]) == Some(close_name),
        count_markers(elems, i, m, open_name) - count_markers(elems, i, m, close_name) == -depth,
    decreases elems.len() - i,
{
    if i < 0 || i >= elems.len() {
    } else if tag_name_of(&elems[i]) == Some(close_name) {
        if depth == 0 {
        } else {
            lemma_find_close_balanced(elems, i + 1, open_name, close_name, depth - 1, m);
        }
    } else if tag_name_of(&elems[i]) == Some(open_name) {
        lemma_find_close_balanced(elems, i + 1, open_name, close_name, depth + 1, m);
    } else {
        lemma_find_close_balanced(elems, i + 1, open_name, close_name, depth, m);
    }
}

/// Scans for the close marker that terminates a body, counting nested
/// same-named constructs.
#[verifier::loop_isolation(false)]
fn find_close(elems: &Vec<Element>, from: usize, open_name: &String, close_name: &String) -> (r:
    Option<usize>)
    requires
        from <= elems.len(),
    ensures
        match r {
            Some(m) => spec_find_close(elems, from as int, open_name@, close_name@, 0) == Some(
                m as int,
            ) && from <= m < elems.len(),
            None => spec_find_close(elems, from as int, open_name@, close_name@, 0) is None,
        },
{
    let mut i = from;
    let mut depth: usize = 0;
    while i < elems.len()
        invariant
            from <= i <= elems.len(),
            depth <= i - from,
            spec_find_close(elems, from as int, open_name@, close_name@, 0) == spec_find_close(
                elems,
                i as int,
                open_name@,
                close_name@,
                depth as int,
            ),
        decreases elems.len() - i,
    {
        let name_matches_close = element_has_name(&elems[i], close_name);
        let name_matches_open = element_has_name(&elems[i], open_name);
        if name_matches_close {
            if depth == 0 {
                return Some(i);
            }
            depth = depth - 1;
        } else if name_matches_open {
            depth = depth + 1;
        }
        i += 1;
    }
    None
}

/// Whether an element is a tag marker with the given leading name.
fn element_has_name(e: &Element, name: &String) -> (r: bool)
    ensures
        r == (tag_name_of(e) == Some(name@)),
{
    match e {
        Element::Tag(tokens) => {
            if tokens.len() > 0 {
                match &tokens[0] {
                    Token::Ident(s) => {
                        proof {
                            assert(toks_of(tokens)[0] == tokens[0]@);
                        }
                        *s == *name
                    },
                    _ => {
                        proof {
                            assert(toks_of(tokens)[0] == tokens[0]@);
                        }
                        false
                    },
                }
            } else {
                false
            }
        },
        _ => false,
    }
}


/// The ids of the changed-text constructs in a node list, in parse
/// order, nested bodies included.
pub open spec fn ids_of(nodes: Seq<Node>) -> Seq<int>
    decreases nodes, 0int,
{
    if nodes.len() == 0 {
        Seq::empty()
    } else {
        node_ids(&nodes[0]) + ids_of(nodes.skip(1))
    }
}

/// The ids of the changed-text constructs under one node.
pub open spec fn node_ids(n: &Node) -> Seq<int>
    decreases n, 1int,
{
    match n {
        Node::For(f) => ids_of(f.body@),
        Node::Cond(c) => ids_of(c.body@),
        Node::IfChanged(ic) => ids_of(ic.body@).push(ic.id as int),
        _ => Seq::empty(),
    }
}

/// Every id of the list lies in the window.
pub open spec fn ids_within(ids: Seq<int>, lo: int, hi: int) -> bool {
    forall|k: int| 0 <= k < ids.len() ==> lo <= #[trigger] ids[k] < hi
}

/// Concatenating id lists from adjacent windows keeps ids distinct.
pub proof fn lemma_ids_disjoint(a: Seq<int>, b: Seq<int>, lo: int, mid: int, hi: int)
    requires
        lo <= mid <= hi,
        ids_within(a, lo, mid),
        ids_within(b, mid, hi),
        a.no_duplicates(),
        b.no_duplicates(),
    ensures
        (a + b).no_duplicates(),
        ids_within(a + b, lo, hi),
{
    assert forall|k: int| 0 <= k < (a + b).len() implies lo <= #[trigger] (a + b)[k] < hi by {
        if k < a.len() {
            assert((a + b)[k] == a[k]);
        } else {
            assert((a + b)[k] == b[k - a.len()]);
        }
    }
    assert forall|i: int, j: int|
        0 <= i < (a + b).len() && 0 <= j < (a + b).len() && i != j implies (a + b)[i] != (a
        + b)[j] by {
        if i < a.len() && j < a.len() {
            assert(a[i] == (a + b)[i] && a[j] == (a + b)[j]);
        } else if i >= a.len() && j >= a.len() {
            assert(b[i - a.len()] == (a + b)[i] && b[j - a.len()] == (a + b)[j]);
        } else if i < a.len() {
            assert(a[i] < mid <= b[j - a.len()]);
        } else {
            assert(a[j] < mid <= b[i - a.len()]);
        }
    }
}

/// Appending one node appends its ids.
pub proof fn lemma_ids_push(s: Seq<Node>, n: Node)
    ensures
        ids_of(s.push(n)) =~= ids_of(s) + node_ids(&n),
    decreases s.len(),
{
    if s.len() == 0 {
        assert(s.push(n)[0] == n);
        assert(s.push(n).skip(1) =~= Seq::<Node>::empty());
        assert(ids_of(Seq::<Node>::empty()) =~= Seq::<int>::empty());
    } else {
        assert(s.push(n)[0] == s[0]);
        assert(s.push(n).skip(1) =~= s.skip(1).push(n));
        lemma_ids_push(s.skip(1), n);
        assert(node_ids(&s[0]) + (ids_of(s.skip(1)) + node_ids(&n)) =~= (node_ids(&s[0])
            + ids_of(s.skip(1))) + node_ids(&n));
    }
}

/// The structural relation between a range of the element stream and
/// a parsed node list: raw text parses to a text node with the same
/// characters, an output expression to an output node, a registered
/// tag marker to its tag's node, and a registered block marker to its
/// block's node whose body is related to the elements up to the
/// matching close marker found by `spec_find_close` — so a nested
/// same-named construct is terminated by its own close marker, never
/// by the outer one.
pub open spec fn tree_matches(
    elems: &Vec<Element>,
    start: int,
    end: int,
    lang: &Language,
    nodes: Seq<Node>,
) -> bool
    decreases end - start, 0int,
{
    if start >= end {
        nodes.len() == 0
    } else {
        nodes.len() > 0 && match &elems[start] {
            Element::Raw(t) => (nodes[0] matches Node::Text(x) && x@ == t@) && tree_matches(
                elems,
                start + 1,
                end,
                lang,
                nodes.skip(1),
            ),
            Element::Output(_) => nodes[0] is Output && tree_matches(
                elems,
                start + 1,
                end,
                lang,
                nodes.skip(1),
            ),
            Element::Tag(_) => tag_name_of(&elems[start]) matches Some(nm) && match lang
                .blocks
                .spec_lookup(nm) {
                Some(bk) => spec_find_close(elems, start + 1, nm, end_tag_of(&bk), 0) matches Some(
                    close,
                ) && start < close && close < end && block_node_matches(
                    &bk,
                    &nodes[0],
                    elems,
                    start + 1,
                    close,
                    lang,
                ) && tree_matches(elems, close + 1, end, lang, nodes.skip(1)),
                None => match lang.tags.spec_lookup(nm) {
                    Some(TagKind::Break(_)) => nodes[0] is Break && tree_matches(
                        elems,
                        start + 1,
                        end,
                        lang,
                        nodes.skip(1),
                    ),
                    Some(TagKind::Continue(_)) => nodes[0] is Continue && tree_matches(
                        elems,
                        start + 1,
                        end,
                        lang,
                        nodes.skip(1),
                    ),
                    None => false,
                },
            },
        }
    }
}

/// Whether one node is the parse of one block construct whose body is
/// the given bounded element range.
pub open spec fn block_node_matches(
    bk: &BlockKind,
    n: &Node,
    elems: &Vec<Element>,
    body_start: int,
    body_end: int,
    lang: &Language,
) -> bool
    decreases body_end - body_start, 1int,
{
    body_start <= body_end && match bk {
        BlockKind::For(_) => n matches Node::For(f) && tree_matches(
            elems,
            body_start,
            body_end,
            lang,
            f.body@,
        ),
        BlockKind::If(_) => n matches Node::Cond(c) && tree_matches(
            elems,
            body_start,
            body_end,
            lang,
            c.body@,
        ),
        BlockKind::IfChanged(_) => n matches Node::IfChanged(ic) && tree_matches(
            elems,
            body_start,
            body_end,
            lang,
            ic.body@,
        ),
    }
}

/// Law: node lists related to adjacent ranges concatenate to a node
/// list related to the combined range.
pub proof fn lemma_tree_append(
    elems: &Vec<Element>,
    start: int,
    mid: int,
    end: int,
    lang: &Language,
    n1: Seq<Node>,
    n2: Seq<Node>,
)
    requires
        start <= mid <= end,
        tree_matches(elems, start, mid, lang, n1),
        tree_matches(elems, mid, end, lang, n2),
    ensures
        tree_matches(elems, start, end, lang, n1 + n2),
    decreases mid - start,
{
    if start >= mid {
        assert(n1.len() == 0);
        assert(n1 + n2 =~= n2);
    } else {
        assert((n1 + n2).len() > 0);
        assert((n1 + n2)[0] == n1[0]);
        assert((n1 + n2).skip(1) =~= n1.skip(1) + n2);
        match &elems[start] {
            Element::Raw(_) => {
                lemma_tree_append(elems, start + 1, mid, end, lang, n1.skip(1), n2);
            },
            Element::Output(_) => {
                lemma_tree_append(elems, start + 1, mid, end, lang, n1.skip(1), n2);
            },
            Element::Tag(_) => {
                let nm = tag_name_of(&elems[start])->Some_0;
                match lang.blocks.spec_lookup(nm) {
                    Some(bk) => {
                        let close = spec_find_close(
                            elems,
                            start + 1,
                            nm,
                            end_tag_of(&bk),
                            0,
                        )->Some_0;
                        lemma_tree_append(elems, close + 1, mid, end, lang, n1.skip(1), n2);
                    },
                    None => {
                        lemma_tree_append(elems, start + 1, mid, end, lang, n1.skip(1), n2);
                    },
                }
            },
        }
    }
}

/// Reflection metadata every registered tag constructor exposes; not
/// consumed by parsing or rendering, purely descriptive.
pub trait TagReflection {
    /// The name the tag is registered under.
    fn tag(&self) -> &'static str;

    /// A human description of the tag.
    fn description(&self) -> &'static str;
}

/// Reflection metadata every registered block constructor exposes.
pub trait BlockReflection {
    /// The name that opens the block.
    fn start_tag(&self) -> &'static str;

    /// The name that closes the block.
    fn end_tag(&self) -> &'static str;

    /// A human description of the block.
    fn description(&self) -> &'static str;

    /// An optional usage example.
    fn example(&self) -> (r: Option<&'static str>) {
        None
    }

    /// An optional usage sketch of the block's grammar.
    fn usage(&self) -> (r: Option<&'static str>) {
        None
    }
}

/// `{% break %}`: terminates the innermost enclosing loop.
#[derive(Clone, Copy, Debug, Default)]
pub struct BreakTag;

impl BreakTag {
    /// A fresh constructor for the registry.
    pub fn new() -> (r: BreakTag) {
        BreakTag
    }

    /// Builds the tag's node; no arguments may be supplied.
    pub fn parse(&self, arguments: &TagTokenIter) -> (r: Result<Node, Error>)
        requires
            arguments.wf(),
        ensures
            r is Ok <==> arguments.remaining().len() == 0,
            r matches Ok(n) ==> n is Break,
            r matches Err(e) ==> e.kind == ErrorKind::Parse,
    {
        arguments.expect_nothing()?;
        Ok(Node::Break)
    }
}

impl TagReflection for BreakTag {
    fn tag(&self) -> (r: &'static str)
        ensures
            r@ == "break"@,
    {
        "break"
    }

    fn description(&self) -> &'static str {
        ""
    }
}

/// `{% continue %}`: skips to the next iteration of the innermost
/// enclosing loop.
#[derive(Clone, Copy, Debug, Default)]
pub struct ContinueTag;

impl ContinueTag {
    /// A fresh constructor for the registry.
    pub fn new() -> (r: ContinueTag) {
        ContinueTag
    }

    /// Builds the tag's node; no arguments may be supplied.
    pub fn parse(&self, arguments: &TagTokenIter) -> (r: Result<Node, Error>)
        requires
            arguments.wf(),
        ensures
            r is Ok <==> arguments.remaining().len() == 0,
            r matches Ok(n) ==> n is Continue,
            r matches Err(e) ==> e.kind == ErrorKind::Parse,
    {
        arguments.expect_nothing()?;
        Ok(Node::Continue)
    }
}

impl TagReflection for ContinueTag {
    fn tag(&self) -> (r: &'static str)
        ensures
            r@ == "continue"@,
    {
        "continue"
    }

    fn description(&self) -> &'static str {
        ""
    }
}

/// `{% ifchanged %} ... {% endifchanged %}`: emits its body's text
/// only when it differs from the last text this same construct
/// emitted within the current render call.
#[derive(Clone, Copy, Debug, Default)]
pub struct IfChangedBlock;

impl IfChangedBlock {
    /// A fresh constructor for the registry.
    pub fn new() -> (r: IfChangedBlock) {
        IfChangedBlock
    }
}

impl BlockReflection for IfChangedBlock {
    fn start_tag(&self) -> (r: &'static str)
        ensures
            r@ == "ifchanged"@,
    {
        "ifchanged"
    }

    fn end_tag(&self) -> (r: &'static str)
        ensures
            r@ == "endifchanged"@,
    {
        "endifchanged"
    }

    fn description(&self) -> &'static str {
        ""
    }
}

/// `{% for x in ... %} ... {% endfor %}`: binds a variable over an
/// inclusive range or a collection, rendering its body once per
/// element in a fresh scope.
#[derive(Clone, Copy, Debug, Default)]
pub struct ForBlock;

impl ForBlock {
    /// A fresh constructor for the registry.
    pub fn new() -> (r: ForBlock) {
        ForBlock
    }
}

impl BlockReflection for ForBlock {
    fn start_tag(&self) -> (r: &'static str)
        ensures
            r@ == "for"@,
    {
        "for"
    }

    fn end_tag(&self) -> (r: &'static str)
        ensures
            r@ == "endfor"@,
    {
        "endfor"
    }

    fn description(&self) -> &'static str {
        ""
    }
}

/// `{% if ... %} ... {% endif %}`: renders its body when the
/// condition holds.
#[derive(Clone, Copy, Debug, Default)]
pub struct IfBlock;

impl IfBlock {
    /// A fresh constructor for the registry.
    pub fn new() -> (r: IfBlock) {
        IfBlock
    }
}

impl BlockReflection for IfBlock {
    fn start_tag(&self) -> (r: &'static str)
        ensures
            r@ == "if"@,
    {
        "if"
    }

    fn end_tag(&self) -> (r: &'static str)
        ensures
            r@ == "endif"@,
    {
        "endif"
    }

    fn description(&self) -> &'static str {
        ""
    }
}

/// A tag constructor of the dialect, as the registry holds it.
#[derive(Clone, Copy, Debug)]
pub enum TagKind {
    Break(BreakTag),
    Continue(ContinueTag),
}

/// A block constructor of the dialect, as the registry holds it.
#[derive(Clone, Copy, Debug)]
pub enum BlockKind {
    For(ForBlock),
    If(IfBlock),
    IfChanged(IfChangedBlock),
}

/// The close-marker name of a block constructor.
pub open spec fn end_tag_of(k: &BlockKind) -> Seq<char> {
    match k {
        BlockKind::For(_) => "endfor"@,
        BlockKind::If(_) => "endif"@,
        BlockKind::IfChanged(_) => "endifchanged"@,
    }
}

impl BlockKind {
    /// The close marker this block's body runs up to.
    pub fn end_tag_string(&self) -> (r: String)
        ensures
            r@ == end_tag_of(self),
    {
        match self {
            BlockKind::For(b) => String::from_str(b.end_tag()),
            BlockKind::If(b) => String::from_str(b.end_tag()),
            BlockKind::IfChanged(b) => String::from_str(b.end_tag()),
        }
    }
}

/// Turns one argument token into an expression: the literal keywords,
/// integer and string literals, and variable references.
fn token_to_expression(t: Token) -> (r: Result<Expression, Error>)
    ensures
        r matches Err(e) ==> e.kind == ErrorKind::Parse,
{
    match t {
        Token::Ident(name) => {
            if string_is(&name, "true") {
                Ok(Expression::Literal(Value::Bool(true)))
            } else if string_is(&name, "false") {
                Ok(Expression::Literal(Value::Bool(false)))
            } else if string_is(&name, "nil") {
                Ok(Expression::Literal(Value::Nil))
            } else {
                Ok(Expression::Variable(name))
            }
        },
        Token::IntLit(i) => Ok(Expression::Literal(Value::Int(i))),
        Token::StrLit(s) => Ok(Expression::Literal(Value::Str(s))),
        _ => Err(Error::parse(String::from_str("expression expected"))),
    }
}

/// Consumes the next token as an expression.
fn expect_expression(arguments: &mut TagTokenIter) -> (r: Result<Expression, Error>)
    requires
        old(arguments).wf(),
    ensures
        final(arguments).wf(),
        r is Ok ==> final(arguments).remaining().len() < old(arguments).remaining().len(),
        r matches Err(e) ==> e.kind == ErrorKind::Parse,
{
    match arguments.next() {
        Some(t) => token_to_expression(t),
        None => Err(Error::parse(String::from_str("expression expected"))),
    }
}

} // verus!
verus! {

/// Whether a string equals a literal.
fn string_is(s: &String, lit: &str) -> (r: bool)
    ensures
        r == (s@ == lit@),
{
    let other = String::from_str(lit);
    *s == other
}

/// A copy of a token list from the given index on.
fn clone_tokens_from(v: &Vec<Token>, from: usize) -> (r: Vec<Token>)
    requires
        from <= v.len(),
{
    let mut out: Vec<Token> = Vec::new();
    let mut i = from;
    while i < v.len()
        invariant
            from <= i <= v.len(),
        decreases v.len() - i,
    {
        out.push(v[i].clone());
        i += 1;
    }
    out
}

impl TagTokenIter {
    /// Whether the next unconsumed token is a colon.
    pub fn peek_is_colon(&self) -> (r: bool)
        requires
            self.wf(),
    {
        if self.pos_in_range() {
            matches!(self.current(), Token::Colon)
        } else {
            false
        }
    }

    /// Whether the next unconsumed token is a comma.
    pub fn peek_is_comma(&self) -> (r: bool)
        requires
            self.wf(),
    {
        if self.pos_in_range() {
            matches!(self.current(), Token::Comma)
        } else {
            false
        }
    }

    /// Whether the next unconsumed token is a pipe.
    pub fn peek_is_pipe(&self) -> (r: bool)
        requires
            self.wf(),
    {
        if self.pos_in_range() {
            matches!(self.current(), Token::Pipe)
        } else {
            false
        }
    }

    /// Whether any token is left.
    fn pos_in_range(&self) -> (r: bool)
        requires
            self.wf(),
        ensures
            r == (self.remaining().len() > 0),
    {
        self.pos < self.tokens.len()
    }

    /// The next unconsumed token.
    fn current(&self) -> (r: &Token)
        requires
            self.wf(),
            self.remaining().len() > 0,
    {
        &self.tokens[self.pos]
    }
}

/// Parses the token stream of one output expression: a primary
/// expression followed by a chain of filter invocations, each bound
/// against its declared parameters here at construction time.
#[verifier::loop_isolation(false)]
fn parse_output(tokens: Vec<Token>, options: &Language) -> (r: Result<OutputNode, Error>)
    ensures
        r matches Err(e) ==> e.kind == ErrorKind::Parse,
{
    let mut cursor = TagTokenIter::new(tokens);
    let expr = expect_expression(&mut cursor)?;
    let mut filters: Vec<crate::filters::BoundFilter> = Vec::new();
    loop
        invariant
            cursor.wf(),
        decreases cursor.remaining().len(),
    {
        match cursor.next() {
            None => {
                break ;
            },
            Some(Token::Pipe) => {
                let name = match cursor.next() {
                    Some(Token::Ident(n)) => n,
                    _ => {
                        return Err(Error::parse(String::from_str("filter name expected")));
                    },
                };
                let mut positional: Vec<Expression> = Vec::new();
                if cursor.peek_is_colon() {
                    let _ = cursor.next();
                    let ghost mark = cursor.remaining().len();
                    loop
                        invariant
                            cursor.wf(),
                            cursor.remaining().len() <= mark,
                        decreases cursor.remaining().len(),
                    {
                        let arg = expect_expression(&mut cursor)?;
                        positional.push(arg);
                        if cursor.peek_is_comma() {
                            let _ = cursor.next();
                        } else {
                            break ;
                        }
                    }
                }
                let kind = match options.filters.lookup(&name) {
                    Some(k) => *k,
                    None => {
                        return Err(Error::parse(String::from_str("unknown filter")));
                    },
                };
                let args = FilterArguments::positional_only(positional);
                let bound = kind.parse(&args)?;
                filters.push(bound);
            },
            Some(_) => {
                return Err(Error::parse(String::from_str("unexpected token after expression")));
            },
        }
    }
    Ok(OutputNode { expr, filters })
}

/// Parses the elements of `[start, end)` into a sequence of nodes:
/// raw text and output expressions become leaves directly; a tag
/// marker is looked up first among the blocks (its body delimited by
/// the matching close marker) and then among the tags; an unknown
/// name is a hard parse error.
#[verifier::loop_isolation(false)]
pub fn parse_range(
    elements: &Vec<Element>,
    start: usize,
    end: usize,
    options: &Language,
    next_id: &mut u64,
) -> (r: Result<Vec<Node>, Error>)
    requires
        start <= end <= elements.len(),
    ensures
        r matches Ok(nodes) ==> tree_matches(elements, start as int, end as int, options, nodes@),
        (forall|j: int| start <= j < end ==> elements[j as int] is Raw) ==> r is Ok,
        r matches Err(e) ==> e.kind == ErrorKind::Parse,
        *final(next_id) >= *old(next_id),
        r matches Ok(nodes) ==> ids_within(
            ids_of(nodes@),
            *old(next_id) as int,
            *final(next_id) as int,
        ) && ids_of(nodes@).no_duplicates(),
    decreases end - start, 0int,
{
    let mut nodes: Vec<Node> = Vec::new();
    proof {
        assert(tree_matches(elements, start as int, start as int, options, nodes@));
        assert(ids_of(nodes@) =~= Seq::<int>::empty());
    }
    let mut idx = start;
    while idx < end
        invariant
            start <= idx <= end <= elements.len(),
            tree_matches(elements, start as int, idx as int, options, nodes@),
            *next_id >= *old(next_id),
            ids_within(ids_of(nodes@), *old(next_id) as int, *next_id as int),
            ids_of(nodes@).no_duplicates(),
        decreases end - idx,
    {
        let ghost pre_nodes = nodes@;
        let ghost pre_id = *next_id;
        match &elements[idx] {
            Element::Raw(text) => {
                nodes.push(Node::Text(text.clone()));
                proof {
                    lemma_ids_push(pre_nodes, nodes@.last());
                    assert(ids_of(nodes@) =~= ids_of(pre_nodes));
                    let one = seq![nodes@[pre_nodes.len() as int]];
                    assert(one.skip(1) =~= Seq::<Node>::empty());
                    assert(tree_matches(
                        elements,
                        idx as int + 1,
                        idx as int + 1,
                        options,
                        Seq::<Node>::empty(),
                    ));
                    assert(tree_matches(elements, idx as int, idx as int + 1, options, one));
                    lemma_tree_append(
                        elements,
                        start as int,
                        idx as int,
                        idx as int + 1,
                        options,
                        pre_nodes,
                        one,
                    );
                    assert(pre_nodes + one =~= nodes@);
                }
                idx += 1;
            },
            Element::Output(tokens) => {
                let owned = clone_tokens_from(tokens, 0);
                let output = parse_output(owned, options)?;
                nodes.push(Node::Output(output));
                proof {
                    lemma_ids_push(pre_nodes, nodes@.last());
                    assert(ids_of(nodes@) =~= ids_of(pre_nodes));
                    let one = seq![nodes@[pre_nodes.len() as int]];
                    assert(one.skip(1) =~= Seq::<Node>::empty());
                    assert(tree_matches(
                        elements,
                        idx as int + 1,
                        idx as int + 1,
                        options,
                        Seq::<Node>::empty(),
                    ));
                    assert(tree_matches(elements, idx as int, idx as int + 1, options, one));
                    lemma_tree_append(
                        elements,
                        start as int,
                        idx as int,
                        idx as int + 1,
                        options,
                        pre_nodes,
                        one,
                    );
                    assert(pre_nodes + one =~= nodes@);
                }
                idx += 1;
            },
            Element::Tag(tokens) => {
                if tokens.len() == 0 {
                    return Err(Error::parse(String::from_str("empty tag marker")));
                }
                let name: String = match &tokens[0] {
                    Token::Ident(n) => n.clone(),
                    _ => {
                        return Err(Error::parse(String::from_str("tag name expected")));
                    },
                };
                let rest = clone_tokens_from(tokens, 1);
                let mut arguments = TagTokenIter::new(rest);
                let block_kind: Option<BlockKind> = match options.blocks.lookup(&name) {
                    Some(k) => Some(*k),
                    None => None,
                };
                proof {
                    assert(tag_name_of(&elements[idx as int]) == Some(name@));
                }
                match block_kind {
                    Some(bk) => {
                        let close_name = bk.end_tag_string();
                        match find_close(elements, idx + 1, &name, &close_name) {
                            Some(close) => {
                                if close >= end {
                                    return Err(
                                        Error::parse(
                                            String::from_str(
                                                "block is not closed inside its parent",
                                            ),
                                        ),
                                    );
                                }
                                let node = parse_block(
                                    &bk,
                                    &mut arguments,
                                    elements,
                                    idx + 1,
                                    close,
                                    options,
                                    next_id,
                                )?;
                                nodes.push(node);
                                proof {
                                    lemma_ids_push(pre_nodes, nodes@.last());
                                    lemma_ids_disjoint(
                                        ids_of(pre_nodes),
                                        node_ids(&nodes@.last()),
                                        *old(next_id) as int,
                                        pre_id as int,
                                        *next_id as int,
                                    );
                                    assert(ids_of(nodes@) =~= ids_of(pre_nodes) + node_ids(
                                        &nodes@.last(),
                                    ));
                                    let one = seq![nodes@[pre_nodes.len() as int]];
                                    assert(one.skip(1) =~= Seq::<Node>::empty());
                                    assert(tree_matches(
                                        elements,
                                        close as int + 1,
                                        close as int + 1,
                                        options,
                                        Seq::<Node>::empty(),
                                    ));
                                    assert(tree_matches(
                                        elements,
                                        idx as int,
                                        close as int + 1,
                                        options,
                                        one,
                                    ));
                                    lemma_tree_append(
                                        elements,
                                        start as int,
                                        idx as int,
                                        close as int + 1,
                                        options,
                                        pre_nodes,
                                        one,
                                    );
                                    assert(pre_nodes + one =~= nodes@);
                                }
                                idx = close + 1;
                            },
                            None => {
                                return Err(
                                    Error::parse(String::from_str("unterminated block construct")),
                                );
                            },
                        }
                    },
                    None => {
                        match options.tags.lookup(&name) {
                            Some(tag_kind) => {
                                match tag_kind {
                                    TagKind::Break(t) => {
                                        let node = t.parse(&arguments)?;
                                        nodes.push(node);
                                        proof {
                                            lemma_ids_push(pre_nodes, nodes@.last());
                                            assert(ids_of(nodes@) =~= ids_of(pre_nodes));
                                            let one = seq![nodes@[pre_nodes.len() as int]];
                                            assert(one.skip(1) =~= Seq::<Node>::empty());
                                            assert(tree_matches(
                                                elements,
                                                idx as int + 1,
                                                idx as int + 1,
                                                options,
                                                Seq::<Node>::empty(),
                                            ));
                                            assert(tree_matches(
                                                elements,
                                                idx as int,
                                                idx as int + 1,
                                                options,
                                                one,
                                            ));
                                            lemma_tree_append(
                                                elements,
                                                start as int,
                                                idx as int,
                                                idx as int + 1,
                                                options,
                                                pre_nodes,
                                                one,
                                            );
                                            assert(pre_nodes + one =~= nodes@);
                                        }
                                    },
                                    TagKind::Continue(t) => {
                                        let node = t.parse(&arguments)?;
                                        nodes.push(node);
                                        proof {
                                            lemma_ids_push(pre_nodes, nodes@.last());
                                            assert(ids_of(nodes@) =~= ids_of(pre_nodes));
                                            let one = seq![nodes@[pre_nodes.len() as int]];
                                            assert(one.skip(1) =~= Seq::<Node>::empty());
                                            assert(tree_matches(
                                                elements,
                                                idx as int + 1,
                                                idx as int + 1,
                                                options,
                                                Seq::<Node>::empty(),
                                            ));
                                            assert(tree_matches(
                                                elements,
                                                idx as int,
                                                idx as int + 1,
                                                options,
                                                one,
                                            ));
                                            lemma_tree_append(
                                                elements,
                                                start as int,
                                                idx as int,
                                                idx as int + 1,
                                                options,
                                                pre_nodes,
                                                one,
                                            );
                                            assert(pre_nodes + one =~= nodes@);
                                        }
                                    },
                                }
                                idx += 1;
                            },
                            None => {
                                return Err(Error::parse(String::from_str("unknown tag")));
                            },
                        }
                    },
                }
            },
        }
    }
    Ok(nodes)
}

/// Invokes a block constructor on its argument cursor and bounded body
/// range; the constructor parses its own body recursively through the
/// registry.
fn parse_block(
    kind: &BlockKind,
    arguments: &mut TagTokenIter,
    elements: &Vec<Element>,
    body_start: usize,
    body_end: usize,
    options: &Language,
    next_id: &mut u64,
) -> (r: Result<Node, Error>)
    requires
        old(arguments).wf(),
        body_start <= body_end <= elements.len(),
    ensures
        r matches Ok(n) ==> block_node_matches(
            kind,
            &n,
            elements,
            body_start as int,
            body_end as int,
            options,
        ),
        kind matches BlockKind::IfChanged(_) && r is Ok ==> old(arguments).remaining().len()
            == 0,
        r matches Err(e) ==> e.kind == ErrorKind::Parse,
        *final(next_id) >= *old(next_id),
        r matches Ok(n) ==> ids_within(
            node_ids(&n),
            *old(next_id) as int,
            *final(next_id) as int,
        ) && node_ids(&n).no_duplicates(),
    decreases body_end - body_start, 1int,
{
    match kind {
        BlockKind::IfChanged(_) => {
            arguments.expect_nothing()?;
            let body = parse_range(elements, body_start, body_end, options, next_id)?;
            if *next_id == u64::MAX {
                return Err(Error::parse(String::from_str("too many constructs")));
            }
            let id = *next_id;
            *next_id = *next_id + 1;
            let ghost body_ids = ids_of(body@);
            let n = Node::IfChanged(IfChangedNode { id, body });
            proof {
                assert(node_ids(&n) == body_ids.push(id as int));
                assert(body_ids.push(id as int) =~= body_ids + seq![id as int]);
                assert(seq![id as int].no_duplicates());
                lemma_ids_disjoint(
                    body_ids,
                    seq![id as int],
                    *old(next_id) as int,
                    id as int,
                    id as int + 1,
                );
            }
            Ok(n)
        },
        BlockKind::For(_) => {
            let var = match arguments.next() {
                Some(Token::Ident(v)) => v,
                _ => {
                    return Err(Error::parse(String::from_str("loop variable expected")));
                },
            };
            match arguments.next() {
                Some(Token::Ident(kw)) => {
                    if !string_is(&kw, "in") {
                        return Err(Error::parse(String::from_str("keyword in expected")));
                    }
                },
                _ => {
                    return Err(Error::parse(String::from_str("keyword in expected")));
                },
            }
            let iterable = match arguments.next() {
                Some(Token::LParen) => {
                    let lo = expect_expression(arguments)?;
                    match arguments.next() {
                        Some(Token::DotDot) => {},
                        _ => {
                            return Err(Error::parse(String::from_str("range dots expected")));
                        },
                    }
                    let hi = expect_expression(arguments)?;
                    match arguments.next() {
                        Some(Token::RParen) => {},
                        _ => {
                            return Err(
                                Error::parse(String::from_str("closing parenthesis expected")),
                            );
                        },
                    }
                    Iterable::Range(lo, hi)
                },
                Some(t) => Iterable::Collection(token_to_expression(t)?),
                None => {
                    return Err(Error::parse(String::from_str("iterable expected")));
                },
            };
            arguments.expect_nothing()?;
            let body = parse_range(elements, body_start, body_end, options, next_id)?;
            Ok(Node::For(ForNode { var, iterable, body }))
        },
        BlockKind::If(_) => {
            let lhs = expect_expression(arguments)?;
            let condition = match arguments.next() {
                None => Condition::Truthy(lhs),
                Some(op_tok) => {
                    let op = match op_tok {
                        Token::EqEq => CompareOp::Eq,
                        Token::NotEq => CompareOp::Ne,
                        Token::Lt => CompareOp::Lt,
                        Token::Gt => CompareOp::Gt,
                        Token::Le => CompareOp::Le,
                        Token::Ge => CompareOp::Ge,
                        _ => {
                            return Err(
                                Error::parse(String::from_str("comparison operator expected")),
                            );
                        },
                    };
                    let rhs = expect_expression(arguments)?;
                    arguments.expect_nothing()?;
                    Condition::Compare(lhs, op, rhs)
                },
            };
            let body = parse_range(elements, body_start, body_end, options, next_id)?;
            Ok(Node::Cond(IfNode { condition, body }))
        },
    }
}

/// The compile entry point over an already-lexed element stream: the
/// returned tree stands in the structural parse relation to the whole
/// stream, a stream of raw text alone always compiles, and every
/// malformed construct aborts compilation — no partial tree is ever
/// handed back.
pub fn parse_elements(elements: &Vec<Element>, options: &Language) -> (r: Result<
    Template,
    Error,
>)
    ensures
        r matches Ok(t) ==> tree_matches(elements, 0, elements.len() as int, options, t.nodes@),
        r matches Ok(t) ==> ids_of(t.nodes@).no_duplicates(),
        (forall|j: int| 0 <= j < elements.len() ==> elements[j] is Raw) ==> r is Ok,
        r matches Err(e) ==> e.kind == ErrorKind::Parse,
{
    let mut next_id: u64 = 0;
    let nodes = parse_range(elements, 0, elements.len(), options, &mut next_id)?;
    Ok(Template::new(nodes))
}

/// The compile entry point over template text: the scanner splits the
/// text into elements, and the element stream is parsed as
/// `parse_elements` does.
pub fn parse(text: &str, options: &Language) -> (r: Result<Template, Error>)
    ensures
        r matches Err(e) ==> e.kind == ErrorKind::Parse,
{
    let elements = lex_elements(text)?;
    parse_elements(&elements, options)
}

} // verus!
