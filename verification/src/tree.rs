//! The syntax tree that rules are matched against.
//!
//! A tree is an arena: nodes live in one table and name each other by index.
//! A parser fills it through `SyntaxTree::new` and `SyntaxTree::add_child`,
//! adding the children of a node in source order. Each node carries a kind, a
//! source span and, for tokens, their text.

use vstd::prelude::*;

verus! {

/// The kinds of node that the engine tells apart. Comments, white space and
/// string literals are kinds of their own, so what is written inside them is
/// never mistaken for code.
#[derive(Clone, Copy, PartialEq, Eq, Debug, Hash, Structural)]
pub enum NodeKind {
    /// The root of a file.
    SourceFile,
    /// A function: its name (an `Identifier`), its `Parameters`, its body.
    FunctionItem,
    /// The parameter list of a function.
    Parameters,
    /// A parameter: its pattern, then its type as the last child.
    Parameter,
    /// A struct: its name, then its `FieldDeclarationList`.
    StructItem,
    /// The fields of a struct.
    FieldDeclarationList,
    /// A field: its name (a `FieldIdentifier`), then its type as the last
    /// child.
    FieldDeclaration,
    /// A block of statements.
    Block,
    /// An `unsafe` block; its child is the block.
    UnsafeBlock,
    /// An expression in the place of a statement.
    ExpressionStatement,
    /// A `let`: what it binds, then the type and the value, if there.
    LetDeclaration,
    /// A call: the callee as the first child, then the `Arguments`.
    CallExpression,
    /// The arguments of a call.
    Arguments,
    /// A field access: the value, then the `FieldIdentifier`. As the callee
    /// of a call it selects a method.
    FieldExpression,
    /// A function with generic arguments: the function, then the
    /// `TypeArguments`.
    GenericFunction,
    /// A cast with `as`: the value, then the target type.
    CastExpression,
    /// A path: what qualifies it (an `Identifier` or a path), then its name
    /// (an `Identifier`).
    ScopedIdentifier,
    /// A name in an expression or a pattern. Its text is the name.
    Identifier,
    /// The name of a field or of a method. Its text is the name.
    FieldIdentifier,
    /// The name of a type. Its text is the name.
    TypeIdentifier,
    /// A primitive type. Its text is the name of the type.
    PrimitiveType,
    /// A type with generic arguments: its name (a `TypeIdentifier`), then the
    /// `TypeArguments`.
    GenericType,
    /// A reference type: `mut` (a `MutableSpecifier`) if it is there, then
    /// the type that is referred to as the last child.
    ReferenceType,
    /// Generic arguments.
    TypeArguments,
    /// The word `mut`.
    MutableSpecifier,
    /// A string literal. Its text is what the string holds, without the
    /// quotes: it is empty for `""`.
    StringLiteral,
    /// A line comment. Its text is the comment as written, markers included.
    LineComment,
    /// A block comment. Its text is the comment as written, markers included.
    BlockComment,
    /// White space, where a parser keeps it.
    Whitespace,
    /// Any other construct.
    Other,
}

/// How many kinds there are: one more than the largest `ordinal`.
pub const KIND_COUNT: usize = 30;

impl NodeKind {
    /// The position of a kind in the declaration of `NodeKind`.
    pub open spec fn spec_ordinal(self) -> usize {
        match self {
            NodeKind::SourceFile => 0,
            NodeKind::FunctionItem => 1,
            NodeKind::Parameters => 2,
            NodeKind::Parameter => 3,
            NodeKind::StructItem => 4,
            NodeKind::FieldDeclarationList => 5,
            NodeKind::FieldDeclaration => 6,
            NodeKind::Block => 7,
            NodeKind::UnsafeBlock => 8,
            NodeKind::ExpressionStatement => 9,
            NodeKind::LetDeclaration => 10,
            NodeKind::CallExpression => 11,
            NodeKind::Arguments => 12,
            NodeKind::FieldExpression => 13,
            NodeKind::GenericFunction => 14,
            NodeKind::CastExpression => 15,
            NodeKind::ScopedIdentifier => 16,
            NodeKind::Identifier => 17,
            NodeKind::FieldIdentifier => 18,
            NodeKind::TypeIdentifier => 19,
            NodeKind::PrimitiveType => 20,
            NodeKind::GenericType => 21,
            NodeKind::ReferenceType => 22,
            NodeKind::TypeArguments => 23,
            NodeKind::MutableSpecifier => 24,
            NodeKind::StringLiteral => 25,
            NodeKind::LineComment => 26,
            NodeKind::BlockComment => 27,
            NodeKind::Whitespace => 28,
            NodeKind::Other => 29,
        }
    }

    /// A comment token, line or block.
    pub open spec fn spec_is_comment(self) -> bool {
        self == NodeKind::LineComment || self == NodeKind::BlockComment
    }

    /// Comments and white space: what may stand between two pieces of code
    /// without being code.
    pub open spec fn spec_is_trivia(self) -> bool {
        self.spec_is_comment() || self == NodeKind::Whitespace
    }

    /// Tokens whose text is free prose: comments and string literals.
    pub open spec fn spec_is_prose(self) -> bool {
        self.spec_is_comment() || self == NodeKind::StringLiteral
    }

    /// A declaration. What is written above a declaration documents the
    /// declaration, not the code inside it.
    pub open spec fn spec_is_declaration(self) -> bool {
        self == NodeKind::SourceFile || self == NodeKind::FunctionItem || self
            == NodeKind::StructItem || self == NodeKind::FieldDeclaration || self
            == NodeKind::Parameter
    }

    /// A statement or an expression: a construct above which a justification
    /// comment can stand.
    pub open spec fn spec_supports_adjacency(self) -> bool {
        self == NodeKind::Block || self == NodeKind::UnsafeBlock || self
            == NodeKind::ExpressionStatement || self == NodeKind::LetDeclaration || self
            == NodeKind::CallExpression || self == NodeKind::CastExpression
    }

    #[verifier::when_used_as_spec(spec_ordinal)]
    pub fn ordinal(self) -> (r: usize)
        ensures
            r == self.spec_ordinal(),
            r < KIND_COUNT,
    {
        match self {
            NodeKind::SourceFile => 0,
            NodeKind::FunctionItem => 1,
            NodeKind::Parameters => 2,
            NodeKind::Parameter => 3,
            NodeKind::StructItem => 4,
            NodeKind::FieldDeclarationList => 5,
            NodeKind::FieldDeclaration => 6,
            NodeKind::Block => 7,
            NodeKind::UnsafeBlock => 8,
            NodeKind::ExpressionStatement => 9,
            NodeKind::LetDeclaration => 10,
            NodeKind::CallExpression => 11,
            NodeKind::Arguments => 12,
            NodeKind::FieldExpression => 13,
            NodeKind::GenericFunction => 14,
            NodeKind::CastExpression => 15,
            NodeKind::ScopedIdentifier => 16,
            NodeKind::Identifier => 17,
            NodeKind::FieldIdentifier => 18,
            NodeKind::TypeIdentifier => 19,
            NodeKind::PrimitiveType => 20,
            NodeKind::GenericType => 21,
            NodeKind::ReferenceType => 22,
            NodeKind::TypeArguments => 23,
            NodeKind::MutableSpecifier => 24,
            NodeKind::StringLiteral => 25,
            NodeKind::LineComment => 26,
            NodeKind::BlockComment => 27,
            NodeKind::Whitespace => 28,
            NodeKind::Other => 29,
        }
    }

    #[verifier::when_used_as_spec(spec_is_comment)]
    pub fn is_comment(self) -> (r: bool)
        ensures
            r == self.spec_is_comment(),
    {
        self == NodeKind::LineComment || self == NodeKind::BlockComment
    }

    #[verifier::when_used_as_spec(spec_is_trivia)]
    pub fn is_trivia(self) -> (r: bool)
        ensures
            r == self.spec_is_trivia(),
    {
        self.is_comment() || self == NodeKind::Whitespace
    }

    #[verifier::when_used_as_spec(spec_is_prose)]
    pub fn is_prose(self) -> (r: bool)
        ensures
            r == self.spec_is_prose(),
    {
        self.is_comment() || self == NodeKind::StringLiteral
    }

    #[verifier::when_used_as_spec(spec_is_declaration)]
    pub fn is_declaration(self) -> (r: bool)
        ensures
            r == self.spec_is_declaration(),
    {
        self == NodeKind::SourceFile || self == NodeKind::FunctionItem || self
            == NodeKind::StructItem || self == NodeKind::FieldDeclaration || self
            == NodeKind::Parameter
    }

    #[verifier::when_used_as_spec(spec_supports_adjacency)]
    pub fn supports_adjacency(self) -> (r: bool)
        ensures
            r == self.spec_supports_adjacency(),
    {
        self == NodeKind::Block || self == NodeKind::UnsafeBlock || self
            == NodeKind::ExpressionStatement || self == NodeKind::LetDeclaration || self
            == NodeKind::CallExpression || self == NodeKind::CastExpression
    }
}

/// Two kinds with the same ordinal are the same kind.
pub proof fn lemma_ordinal_injective(a: NodeKind, b: NodeKind)
    requires
        a.spec_ordinal() == b.spec_ordinal(),
    ensures
        a == b,
{
}

/// Where a node stands in its file: the line and column at which it starts
/// and at which it ends.
#[derive(Clone, Copy, PartialEq, Eq, Debug, Hash, Structural)]
pub struct Span {
    pub start_line: u32,
    pub start_col: u32,
    pub end_line: u32,
    pub end_col: u32,
}

/// What a tree holds of one node. The links name other nodes by their index.
pub struct NodeView {
    pub kind: NodeKind,
    pub span: Span,
    pub text: Seq<char>,
    pub parent: Option<usize>,
    pub prev_sibling: Option<usize>,
    pub next_sibling: Option<usize>,
    pub first_child: Option<usize>,
    pub last_child: Option<usize>,
}

/// The links of node `i` agree with those of its neighbours, and every link
/// respects the order of the table: a parent and an earlier sibling stand
/// before the node, its children and later siblings after it.
pub open spec fn node_wf(t: Seq<NodeView>, i: int) -> bool {
    let n = t[i];
    &&& (i == 0 <==> n.parent is None)
    &&& (n.parent matches Some(p) ==> {
        &&& p < i
        &&& (n.prev_sibling is None ==> t[p as int].first_child == Some(i as usize))
        &&& (n.next_sibling is None ==> t[p as int].last_child == Some(i as usize))
    })
    &&& (n.parent is None ==> n.prev_sibling is None && n.next_sibling is None)
    &&& (n.prev_sibling matches Some(q) ==> {
        &&& q < i
        &&& t[q as int].next_sibling == Some(i as usize)
        &&& t[q as int].parent == n.parent
    })
    &&& (n.next_sibling matches Some(s) ==> {
        &&& i < s < t.len()
        &&& t[s as int].prev_sibling == Some(i as usize)
        &&& t[s as int].parent == n.parent
    })
    &&& (n.first_child matches Some(c) ==> {
        &&& i < c < t.len()
        &&& t[c as int].parent == Some(i as usize)
        &&& t[c as int].prev_sibling is None
    })
    &&& (n.last_child matches Some(c) ==> {
        &&& i < c < t.len()
        &&& t[c as int].parent == Some(i as usize)
        &&& t[c as int].next_sibling is None
    })
    &&& (n.first_child is Some <==> n.last_child is Some)
}

/// A table of nodes is a tree: node 0 is the root, and every node's links are
/// consistent.
pub open spec fn tree_wf(t: Seq<NodeView>) -> bool {
    &&& 1 <= t.len() <= usize::MAX
    &&& forall|i: int| 0 <= i < t.len() ==> node_wf(t, i)
}

/// The table after a node was added as the last child of `parent`.
pub open spec fn with_child(
    t: Seq<NodeView>,
    parent: usize,
    kind: NodeKind,
    span: Span,
    text: Seq<char>,
) -> Seq<NodeView> {
    let id = t.len() as usize;
    let last = t[parent as int].last_child;
    let linked = match last {
        Some(l) => t.update(l as int, NodeView { next_sibling: Some(id), ..t[l as int] }),
        None => t,
    };
    let first = if last is None {
        Some(id)
    } else {
        t[parent as int].first_child
    };
    linked.update(
        parent as int,
        NodeView { first_child: first, last_child: Some(id), ..linked[parent as int] },
    ).push(
        NodeView {
            kind,
            span,
            text,
            parent: Some(parent),
            prev_sibling: last,
            next_sibling: None,
            first_child: None,
            last_child: None,
        },
    )
}

proof fn lemma_with_child_new_node(
    t: Seq<NodeView>,
    parent: usize,
    kind: NodeKind,
    span: Span,
    text: Seq<char>,
)
    requires
        tree_wf(t),
        parent < t.len(),
        t.len() < usize::MAX,
    ensures
        node_wf(with_child(t, parent, kind, span, text), t.len() as int),
        node_wf(with_child(t, parent, kind, span, text), parent as int),
{
    let u = with_child(t, parent, kind, span, text);
    assert(node_wf(t, parent as int));
    if let Some(l) = t[parent as int].last_child {
        assert(node_wf(t, l as int));
    }
    if let Some(c) = t[parent as int].first_child {
        assert(node_wf(t, c as int));
    }
    if let Some(pp) = t[parent as int].parent {
        assert(node_wf(t, pp as int));
    }
    if let Some(q) = t[parent as int].prev_sibling {
        assert(node_wf(t, q as int));
    }
    if let Some(s) = t[parent as int].next_sibling {
        assert(node_wf(t, s as int));
    }
}

proof fn lemma_with_child_old_node(
    t: Seq<NodeView>,
    parent: usize,
    kind: NodeKind,
    span: Span,
    text: Seq<char>,
    i: int,
)
    requires
        tree_wf(t),
        parent < t.len(),
        t.len() < usize::MAX,
        0 <= i < t.len(),
        i != parent,
    ensures
        node_wf(with_child(t, parent, kind, span, text), i),
{
    let u = with_child(t, parent, kind, span, text);
    let last = t[parent as int].last_child;
    assert(node_wf(t, i));
    assert(node_wf(t, parent as int));
    if let Some(l) = last {
        assert(node_wf(t, l as int));
        assert(u[l as int] == NodeView { next_sibling: Some(t.len() as usize), ..t[l as int] });
    }
    assert(forall|j: int| 0 <= j < t.len() && j != parent && last != Some(j as usize) ==> u[j] == t[j]);
    let n = t[i];
    if let Some(pp) = n.parent {
        assert(u[pp as int].first_child == t[pp as int].first_child || (pp == parent && last is None));
        assert(u[pp as int].last_child == t[pp as int].last_child || pp == parent);
    }
    if let Some(q) = n.prev_sibling {
        assert(node_wf(t, q as int));
        assert(u[q as int].parent == t[q as int].parent);
        assert(u[q as int].next_sibling == t[q as int].next_sibling);
    }
    if let Some(s) = n.next_sibling {
        assert(u[s as int].parent == t[s as int].parent);
        assert(u[s as int].prev_sibling == t[s as int].prev_sibling);
    }
    if let Some(c) = n.first_child {
        assert(u[c as int].parent == t[c as int].parent);
        assert(u[c as int].prev_sibling == t[c as int].prev_sibling);
    }
    if let Some(c) = n.last_child {
        assert(u[c as int].parent == t[c as int].parent);
        assert(u[c as int].next_sibling == t[c as int].next_sibling);
    }
}

/// Adding a child to a tree gives a tree.
pub proof fn lemma_with_child_wf(
    t: Seq<NodeView>,
    parent: usize,
    kind: NodeKind,
    span: Span,
    text: Seq<char>,
)
    requires
        tree_wf(t),
        parent < t.len(),
        t.len() < usize::MAX,
    ensures
        tree_wf(with_child(t, parent, kind, span, text)),
{
    let u = with_child(t, parent, kind, span, text);
    lemma_with_child_new_node(t, parent, kind, span, text);
    assert(node_wf(t, parent as int));
    assert(u.len() == t.len() + 1);
    assert forall|i: int| 0 <= i < u.len() implies node_wf(u, i) by {
        if i < t.len() && i != parent {
            lemma_with_child_old_node(t, parent, kind, span, text, i);
        } else if i == parent {
            assert(node_wf(u, parent as int));
        } else {
            assert(node_wf(u, t.len() as int));
        }
    }
}

/// A link out of node `i` that leads forward to a node of the table. In a tree
/// every child link and every link to a later sibling does.
pub open spec fn forward(t: Seq<NodeView>, i: usize, link: Option<usize>) -> Option<usize> {
    match link {
        Some(j) if i < j && j < t.len() => Some(j),
        _ => None,
    }
}

/// The nodes from `start` on in document order: `start`, then all that is
/// below it, then its later siblings, each followed by all that is below it.
pub open spec fn walk(t: Seq<NodeView>, start: Option<usize>) -> Seq<usize>
    decreases
        (match start {
            Some(i) => t.len() - i,
            None => 0,
        }),
{
    match start {
        Some(i) if i < t.len() => seq![i] + walk(t, forward(t, i, t[i as int].first_child)) + walk(
            t,
            forward(t, i, t[i as int].next_sibling),
        ),
        _ => Seq::empty(),
    }
}

/// The nodes of a tree in document order (pre-order): a node comes before its
/// children, and the children come in the order in which they were added.
pub open spec fn preorder(t: Seq<NodeView>) -> Seq<usize> {
    walk(t, Some(0))
}

/// What a traversal still has to visit, given the nodes it has set aside: the
/// walk from the node set aside last, then from the one before it, and so on.
spec fn pending(t: Seq<NodeView>, stack: Seq<usize>) -> Seq<usize>
    decreases stack.len(),
{
    if stack.len() == 0 {
        Seq::empty()
    } else {
        walk(t, Some(stack.last())) + pending(t, stack.drop_last())
    }
}

proof fn lemma_pending_push(t: Seq<NodeView>, stack: Seq<usize>, i: usize)
    ensures
        pending(t, stack.push(i)) == walk(t, Some(i)) + pending(t, stack),
{
    assert(stack.push(i).drop_last() =~= stack);
}

/// Why a node could not be added.
#[derive(Clone, Copy, PartialEq, Eq, Debug, Structural)]
pub enum TreeError {
    /// The parent that was named is not a node of the tree.
    UnknownParent,
    /// The tree holds as many nodes as an index can name.
    Full,
}

#[derive(Debug)]
struct Node {
    kind: NodeKind,
    span: Span,
    text: String,
    parent: Option<usize>,
    prev: Option<usize>,
    next: Option<usize>,
    first: Option<usize>,
    last: Option<usize>,
}

impl Node {
    spec fn model(self) -> NodeView {
        NodeView {
            kind: self.kind,
            span: self.span,
            text: self.text@,
            parent: self.parent,
            prev_sibling: self.prev,
            next_sibling: self.next,
            first_child: self.first,
            last_child: self.last,
        }
    }
}

/// A syntax tree for one file.
#[derive(Debug)]
pub struct SyntaxTree {
    nodes: Vec<Node>,
}

impl View for SyntaxTree {
    type V = Seq<NodeView>;

    closed spec fn view(&self) -> Seq<NodeView> {
        Seq::new(self.nodes.len() as nat, |i: int| self.nodes[i].model())
    }
}

impl SyntaxTree {
    /// The tree's table is a tree in the sense of `tree_wf`.
    pub open spec fn wf(&self) -> bool {
        tree_wf(self@)
    }

    /// A tree that holds its root and nothing else.
    pub fn new(kind: NodeKind, span: Span, text: &str) -> (tree: Self)
        ensures
            tree.wf(),
            tree@ == seq![
                NodeView {
                    kind,
                    span,
                    text: text@,
                    parent: None,
                    prev_sibling: None,
                    next_sibling: None,
                    first_child: None,
                    last_child: None,
                },
            ],
    {
        let mut nodes: Vec<Node> = Vec::new();
        nodes.push(
            Node {
                kind,
                span,
                text: text.to_owned(),
                parent: None,
                prev: None,
                next: None,
                first: None,
                last: None,
            },
        );
        let tree = SyntaxTree { nodes };
        assert(tree@ =~= seq![
            NodeView {
                kind,
                span,
                text: text@,
                parent: None,
                prev_sibling: None,
                next_sibling: None,
                first_child: None,
                last_child: None,
            },
        ]);
        tree
    }

    /// Adds a node as the last child of `parent` and returns its index, which
    /// is the number of nodes that the tree held before.
    pub fn add_child(&mut self, parent: usize, kind: NodeKind, span: Span, text: &str) -> (r:
        Result<usize, TreeError>)
        requires
            old(self).wf(),
        ensures
            final(self).wf(),
            match r {
                Ok(id) => {
                    &&& parent < old(self)@.len()
                    &&& id == old(self)@.len()
                    &&& final(self)@ == with_child(old(self)@, parent, kind, span, text@)
                },
                Err(e) => {
                    &&& final(self)@ == old(self)@
                    &&& e == TreeError::UnknownParent <==> parent >= old(self)@.len()
                    &&& e == TreeError::Full <==> parent < old(self)@.len() && old(self)@.len()
                        == usize::MAX
                },
            },
    {
        let id: usize = self.nodes.len();
        if parent >= id {
            return Err(TreeError::UnknownParent);
        }
        if id == usize::MAX {
            return Err(TreeError::Full);
        }
        let last: Option<usize> = self.nodes[parent].last;
        proof {
            assert(node_wf(self@, parent as int));
            lemma_with_child_wf(self@, parent, kind, span, text@);
        }
        if let Some(l) = last {
            self.nodes[l].next = Some(id);
        } else {
            self.nodes[parent].first = Some(id);
        }
        self.nodes[parent].last = Some(id);
        self.nodes.push(
            Node {
                kind,
                span,
                text: text.to_owned(),
                parent: Some(parent),
                prev: last,
                next: None,
                first: None,
                last: None,
            },
        );
        assert(self@ =~= with_child(old(self)@, parent, kind, span, text@));
        Ok(id)
    }

    /// The number of nodes.
    pub fn len(&self) -> (n: usize)
        ensures
            n == self@.len(),
    {
        self.nodes.len()
    }

    /// The kind of node `i`.
    pub fn kind(&self, i: usize) -> (k: NodeKind)
        requires
            i < self@.len(),
        ensures
            k == self@[i as int].kind,
    {
        self.nodes[i].kind
    }

    /// The span of node `i`.
    pub fn span(&self, i: usize) -> (s: Span)
        requires
            i < self@.len(),
        ensures
            s == self@[i as int].span,
    {
        self.nodes[i].span
    }

    /// The text of node `i`.
    pub fn text(&self, i: usize) -> (s: &String)
        requires
            i < self@.len(),
        ensures
            s@ == self@[i as int].text,
    {
        &self.nodes[i].text
    }

    /// The parent of node `i`; the root has none.
    pub fn parent(&self, i: usize) -> (p: Option<usize>)
        requires
            i < self@.len(),
        ensures
            p == self@[i as int].parent,
    {
        self.nodes[i].parent
    }

    /// The sibling added just before node `i`.
    pub fn prev_sibling(&self, i: usize) -> (p: Option<usize>)
        requires
            i < self@.len(),
        ensures
            p == self@[i as int].prev_sibling,
    {
        self.nodes[i].prev
    }

    /// The sibling added just after node `i`.
    pub fn next_sibling(&self, i: usize) -> (p: Option<usize>)
        requires
            i < self@.len(),
        ensures
            p == self@[i as int].next_sibling,
    {
        self.nodes[i].next
    }

    /// The first child of node `i`.
    pub fn first_child(&self, i: usize) -> (p: Option<usize>)
        requires
            i < self@.len(),
        ensures
            p == self@[i as int].first_child,
    {
        self.nodes[i].first
    }

    /// The last child of node `i`.
    pub fn last_child(&self, i: usize) -> (p: Option<usize>)
        requires
            i < self@.len(),
        ensures
            p == self@[i as int].last_child,
    {
        self.nodes[i].last
    }

    /// The nodes in document order, found by one traversal from the root.
    pub fn preorder(&self) -> (order: Vec<usize>)
        requires
            self.wf(),
        ensures
            order@ == preorder(self@),
            forall|k: int| 0 <= k < order@.len() ==> order@[k] < self@.len(),
    {
        let mut order: Vec<usize> = Vec::new();
        let mut stack: Vec<usize> = Vec::new();
        stack.push(0);
        proof {
            lemma_pending_push(self@, Seq::empty(), 0);
            assert(order@ + pending(self@, stack@) =~= walk(self@, Some(0usize)));
        }
        while stack.len() > 0
            invariant
                self.wf(),
                forall|k: int| 0 <= k < stack@.len() ==> stack@[k] < self@.len(),
                forall|k: int| 0 <= k < order@.len() ==> order@[k] < self@.len(),
                order@ + pending(self@, stack@) == preorder(self@),
            decreases pending(self@, stack@).len(),
        {
            let ghost before = stack@;
            let ghost done = order@;
            let i: usize = stack.pop().unwrap();
            let ghost rest = stack@;
            order.push(i);
            let next: Option<usize> = self.nodes[i].next;
            let first: Option<usize> = self.nodes[i].first;
            proof {
                assert(before =~= rest.push(i));
                lemma_pending_push(self@, rest, i);
                assert(node_wf(self@, i as int));
                assert(forward(self@, i, self@[i as int].next_sibling) == next);
                assert(forward(self@, i, self@[i as int].first_child) == first);
            }
            if let Some(s) = next {
                stack.push(s);
                proof {
                    lemma_pending_push(self@, rest, s);
                }
            }
            let ghost middle = stack@;
            if let Some(c) = first {
                stack.push(c);
                proof {
                    lemma_pending_push(self@, middle, c);
                }
            }
            proof {
                assert(pending(self@, middle) == walk(self@, next) + pending(self@, rest));
                assert(pending(self@, stack@) == walk(self@, first) + pending(self@, middle));
                assert(order@ + pending(self@, stack@) =~= done + pending(self@, before));
            }
        }
        proof {
            assert(order@ + pending(self@, stack@) =~= order@);
        }
        order
    }
}

} // verus!
