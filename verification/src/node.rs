//! The syntax tree: one node type, tagged by its kind, with ordered children.

use vstd::prelude::*;

verus! {

/// The kind of a [`Node`], with the payload that belongs to the kind.
///
/// A `Double` keeps the literal as written. `FunDef`, `Constructor` and
/// `MethodCall` end with the path of the file in which they were written;
/// `MethodCall` holds the expression that yields the receiver.
#[derive(Debug)]
pub enum NodeType {
    Int(i64),
    Double(String),
    Bool(bool),
    Str(String),
    Name(String),
    FunCall(String),
    MethodCall(String, Box<Node>, String),
    FunDef(String, String),
    Constructor(String, String),
    TypedVar(String, String),
    ThisFieldInit(String),
    Null,
    Add,
    Sub,
    Mul,
    Div,
    Equal,
    LessThan,
    GreaterThan,
    LessOrEq,
    GreaterOrEq,
    LogAnd,
    LogOr,
    Not,
    BitAnd,
    BitOr,
    BitXor,
    PreIncrement,
    PreDecrement,
    PostIncrement,
    PostDecrement,
    List,
    ArgList,
    ParamList,
    Block,
    Assign,
    Conditional,
    If,
    ElseIf,
    Else,
    While,
    DoWhile,
    For,
    Return,
}

/// A node of the syntax tree.
#[derive(Debug)]
pub struct Node {
    pub nodetype: NodeType,
    pub children: Vec<Node>,
}

/// The mathematical value of a [`NodeType`].
pub enum AstKind {
    Int(i64),
    Double(Seq<char>),
    Bool(bool),
    Str(Seq<char>),
    Name(Seq<char>),
    FunCall(Seq<char>),
    MethodCall(Seq<char>, Box<Ast>, Seq<char>),
    FunDef(Seq<char>, Seq<char>),
    Constructor(Seq<char>, Seq<char>),
    TypedVar(Seq<char>, Seq<char>),
    ThisFieldInit(Seq<char>),
    Null,
    Add,
    Sub,
    Mul,
    Div,
    Equal,
    LessThan,
    GreaterThan,
    LessOrEq,
    GreaterOrEq,
    LogAnd,
    LogOr,
    Not,
    BitAnd,
    BitOr,
    BitXor,
    PreIncrement,
    PreDecrement,
    PostIncrement,
    PostDecrement,
    List,
    ArgList,
    ParamList,
    Block,
    Assign,
    Conditional,
    If,
    ElseIf,
    Else,
    While,
    DoWhile,
    For,
    Return,
}

/// The mathematical value of a [`Node`]: a kind and a sequence of subtrees.
pub struct Ast {
    pub kind: AstKind,
    pub children: Seq<Ast>,
}

/// The values of a node sequence, in order.
pub open spec fn node_views(ns: Seq<Node>) -> Seq<Ast>
    decreases ns, 1int,
{
    Seq::new(ns.len(), |i: int| if 0 <= i < ns.len() { node_view(ns[i]) } else { Ast::leaf(AstKind::Null) })
}

/// `node_views` keeps the length and maps the nodes one by one.
pub proof fn lemma_node_views(ns: Seq<Node>)
    ensures
        node_views(ns).len() == ns.len(),
        forall|i: int| 0 <= i < ns.len() ==> (#[trigger] node_views(ns)[i]) == ns[i]@,
{
}

/// The values of a sequence with one more node at its end.
pub proof fn lemma_node_views_push(ns: Seq<Node>, n: Node)
    ensures
        node_views(ns.push(n)) == node_views(ns).push(n@),
{
    assert(node_views(ns.push(n)) =~= node_views(ns).push(n@));
}

/// The values of a sequence without its first node.
pub proof fn lemma_node_views_drop_first(ns: Seq<Node>)
    ensures
        node_views(ns).len() == ns.len(),
        ns.len() > 0 ==> node_views(ns)[0] == ns[0]@ && node_views(ns.drop_first()) == node_views(
            ns,
        ).drop_first(),
{
    if ns.len() > 0 {
        assert(node_views(ns.drop_first()) =~= node_views(ns).drop_first());
    }
}

/// The value of a node kind.
pub open spec fn kind_view(k: NodeType) -> AstKind
    decreases k, 0int,
{
    match k {
        NodeType::Int(v) => AstKind::Int(v),
        NodeType::Double(s) => AstKind::Double(s@),
        NodeType::Bool(b) => AstKind::Bool(b),
        NodeType::Str(s) => AstKind::Str(s@),
        NodeType::Name(s) => AstKind::Name(s@),
        NodeType::FunCall(s) => AstKind::FunCall(s@),
        NodeType::MethodCall(s, owner, file) => AstKind::MethodCall(s@, Box::new(node_view(*owner)), file@),
        NodeType::FunDef(s, file) => AstKind::FunDef(s@, file@),
        NodeType::Constructor(s, file) => AstKind::Constructor(s@, file@),
        NodeType::TypedVar(t, s) => AstKind::TypedVar(t@, s@),
        NodeType::ThisFieldInit(s) => AstKind::ThisFieldInit(s@),
        NodeType::Null => AstKind::Null,
        NodeType::Add => AstKind::Add,
        NodeType::Sub => AstKind::Sub,
        NodeType::Mul => AstKind::Mul,
        NodeType::Div => AstKind::Div,
        NodeType::Equal => AstKind::Equal,
        NodeType::LessThan => AstKind::LessThan,
        NodeType::GreaterThan => AstKind::GreaterThan,
        NodeType::LessOrEq => AstKind::LessOrEq,
        NodeType::GreaterOrEq => AstKind::GreaterOrEq,
        NodeType::LogAnd => AstKind::LogAnd,
        NodeType::LogOr => AstKind::LogOr,
        NodeType::Not => AstKind::Not,
        NodeType::BitAnd => AstKind::BitAnd,
        NodeType::BitOr => AstKind::BitOr,
        NodeType::BitXor => AstKind::BitXor,
        NodeType::PreIncrement => AstKind::PreIncrement,
        NodeType::PreDecrement => AstKind::PreDecrement,
        NodeType::PostIncrement => AstKind::PostIncrement,
        NodeType::PostDecrement => AstKind::PostDecrement,
        NodeType::List => AstKind::List,
        NodeType::ArgList => AstKind::ArgList,
        NodeType::ParamList => AstKind::ParamList,
        NodeType::Block => AstKind::Block,
        NodeType::Assign => AstKind::Assign,
        NodeType::Conditional => AstKind::Conditional,
        NodeType::If => AstKind::If,
        NodeType::ElseIf => AstKind::ElseIf,
        NodeType::Else => AstKind::Else,
        NodeType::While => AstKind::While,
        NodeType::DoWhile => AstKind::DoWhile,
        NodeType::For => AstKind::For,
        NodeType::Return => AstKind::Return,
    }
}

/// The value of a node.
pub open spec fn node_view(n: Node) -> Ast
    decreases n, 2int,
{
    Ast { kind: kind_view(n.nodetype), children: node_views(n.children@) }
}

impl View for NodeType {
    type V = AstKind;

    open spec fn view(&self) -> AstKind {
        kind_view(*self)
    }
}

impl View for Node {
    type V = Ast;

    open spec fn view(&self) -> Ast {
        node_view(*self)
    }
}

impl Ast {
    /// A tree without children.
    pub open spec fn leaf(kind: AstKind) -> Ast {
        Ast { kind, children: Seq::empty() }
    }

    /// A tree with one child.
    pub open spec fn unary(kind: AstKind, a: Ast) -> Ast {
        Ast { kind, children: seq![a] }
    }

    /// A tree with two children.
    pub open spec fn binary(kind: AstKind, a: Ast, b: Ast) -> Ast {
        Ast { kind, children: seq![a, b] }
    }

    /// The same tree with one more child at the end.
    pub open spec fn with_child(self, a: Ast) -> Ast {
        Ast { kind: self.kind, children: self.children.push(a) }
    }

    /// A function or a constructor: what a file declares at its top level.
    pub open spec fn is_declaration(self) -> bool {
        self.kind is FunDef || self.kind is Constructor
    }

    /// A childless `Name`.
    pub open spec fn is_plain_name(self) -> bool {
        self.kind is Name && self.children.len() == 0
    }

    /// A parameter entry: a childless `Name` or `ThisFieldInit`.
    pub open spec fn is_param(self) -> bool {
        (self.kind is Name || self.kind is ThisFieldInit) && self.children.len() == 0
    }

    /// An arm behind the first, the one with the given index among `count`
    /// arms: an `ElseIf`, or as the last arm an `Else`.
    pub open spec fn is_later_arm(self, index: int, count: nat) -> bool {
        self.kind is ElseIf || (self.kind is Else && index == count - 1)
    }

    /// The arms of a conditional: one `If`, then any number of `ElseIf`, then
    /// at most one `Else`.
    pub open spec fn arms_in_order(self) -> bool {
        &&& self.children.len() >= 1
        &&& self.children[0].kind is If
        &&& forall|i: int|
            1 <= i < self.children.len() ==> (#[trigger] self.children[i]).is_later_arm(
                i,
                self.children.len(),
            )
    }

    /// The number and kinds of the children are those that the node's own
    /// kind admits. Says nothing yet of the subtrees below the children.
    pub open spec fn shape_ok(self) -> bool {
        let n = self.children.len();
        match self.kind {
            AstKind::Int(_) | AstKind::Double(_) | AstKind::Bool(_) | AstKind::Null
            | AstKind::TypedVar(_, _) | AstKind::ThisFieldInit(_) => n == 0,
            AstKind::Name(_) => n <= 1,
            AstKind::Str(_) | AstKind::List | AstKind::ArgList | AstKind::Block => true,
            AstKind::Add | AstKind::Mul | AstKind::Div | AstKind::Equal | AstKind::LessThan
            | AstKind::GreaterThan | AstKind::LessOrEq | AstKind::GreaterOrEq | AstKind::LogAnd
            | AstKind::LogOr | AstKind::BitAnd | AstKind::BitOr | AstKind::BitXor
            | AstKind::Assign => n == 2,
            AstKind::Sub => n == 1 || n == 2,
            AstKind::Not | AstKind::Return => n == 1,
            AstKind::PreIncrement | AstKind::PreDecrement | AstKind::PostIncrement
            | AstKind::PostDecrement => n == 1 && self.children[0].is_plain_name(),
            AstKind::FunCall(_) | AstKind::MethodCall(_, _, _) => n == 1
                && self.children[0].kind is ArgList,
            AstKind::ParamList => forall|i: int| 0 <= i < n ==> (#[trigger] self.children[i]).is_param(),
            AstKind::FunDef(_, _) => n == 2 && self.children[0].kind is ParamList
                && self.children[1].kind is Block,
            AstKind::Constructor(_, _) => n == 2 && self.children[0].kind is ParamList && (
            self.children[1].kind is Block || self.children[1].kind is Null),
            AstKind::Conditional => self.arms_in_order(),
            AstKind::If | AstKind::ElseIf | AstKind::While => n == 2
                && self.children[1].kind is Block,
            AstKind::Else => n == 1 && self.children[0].kind is Block,
            AstKind::DoWhile => n == 2 && self.children[0].kind is Block,
            AstKind::For => n == 4 && self.children[0].kind is Assign
                && self.children[0].children.len() == 2 && (self.children[0].children[0].kind is Name
                || self.children[0].children[0].kind is TypedVar) && self.children[3].kind is Block,
        }
    }

    /// The root has the children that its kind admits, and the receiver of a
    /// method call is well formed.
    pub open spec fn admissible(self) -> bool {
        &&& self.shape_ok()
        &&& match self.kind {
            AstKind::MethodCall(_, owner, _) => owner.well_formed(),
            _ => true,
        }
    }

    /// Every node of the tree has the children that its kind admits, and so
    /// has the receiver expression of every method call.
    #[verifier::opaque]
    pub open spec fn well_formed(self) -> bool
        decreases self,
    {
        &&& self.shape_ok()
        &&& forall|i: int| 0 <= i < self.children.len() ==> (#[trigger] self.children[i]).well_formed()
        &&& match self.kind {
            AstKind::MethodCall(_, owner, _) => owner.well_formed(),
            _ => true,
        }
    }
}

/// Every tree of the sequence is a function or a constructor.
pub open spec fn all_declarations(ts: Seq<Ast>) -> bool {
    forall|i: int| 0 <= i < ts.len() ==> (#[trigger] ts[i]).is_declaration()
}

/// Every tree of the sequence is well formed.
pub open spec fn all_well_formed(ts: Seq<Ast>) -> bool {
    forall|i: int| 0 <= i < ts.len() ==> (#[trigger] ts[i]).well_formed()
}

/// A copy of a node sequence.
pub fn clone_nodes(ns: &Vec<Node>) -> (out: Vec<Node>)
    ensures
        node_views(out@) == node_views(ns@),
    decreases ns, 1int,
{
    let mut out: Vec<Node> = Vec::new();
    let mut i: usize = 0;
    while i < ns.len()
        invariant
            i <= ns.len(),
            out.len() == i,
            forall|k: int| 0 <= k < i ==> out[k]@ == ns[k]@,
        decreases ns.len() - i,
    {
        out.push(ns[i].clone());
        i += 1;
    }
    assert(node_views(out@) =~= node_views(ns@));
    out
}

impl Clone for NodeType {
    fn clone(&self) -> (out: NodeType)
        ensures
            out@ == self@,
        decreases self, 0int,
    {
        match self {
            NodeType::Int(v) => NodeType::Int(*v),
            NodeType::Double(s) => NodeType::Double(s.clone()),
            NodeType::Bool(b) => NodeType::Bool(*b),
            NodeType::Str(s) => NodeType::Str(s.clone()),
            NodeType::Name(s) => NodeType::Name(s.clone()),
            NodeType::FunCall(s) => NodeType::FunCall(s.clone()),
            NodeType::MethodCall(s, owner, file) => {
                let inner: &Node = &**owner;
                NodeType::MethodCall(s.clone(), Box::new(inner.clone()), file.clone())
            },
            NodeType::FunDef(s, file) => NodeType::FunDef(s.clone(), file.clone()),
            NodeType::Constructor(s, file) => NodeType::Constructor(s.clone(), file.clone()),
            NodeType::TypedVar(t, s) => NodeType::TypedVar(t.clone(), s.clone()),
            NodeType::ThisFieldInit(s) => NodeType::ThisFieldInit(s.clone()),
            NodeType::Null => NodeType::Null,
            NodeType::Add => NodeType::Add,
            NodeType::Sub => NodeType::Sub,
            NodeType::Mul => NodeType::Mul,
            NodeType::Div => NodeType::Div,
            NodeType::Equal => NodeType::Equal,
            NodeType::LessThan => NodeType::LessThan,
            NodeType::GreaterThan => NodeType::GreaterThan,
            NodeType::LessOrEq => NodeType::LessOrEq,
            NodeType::GreaterOrEq => NodeType::GreaterOrEq,
            NodeType::LogAnd => NodeType::LogAnd,
            NodeType::LogOr => NodeType::LogOr,
            NodeType::Not => NodeType::Not,
            NodeType::BitAnd => NodeType::BitAnd,
            NodeType::BitOr => NodeType::BitOr,
            NodeType::BitXor => NodeType::BitXor,
            NodeType::PreIncrement => NodeType::PreIncrement,
            NodeType::PreDecrement => NodeType::PreDecrement,
            NodeType::PostIncrement => NodeType::PostIncrement,
            NodeType::PostDecrement => NodeType::PostDecrement,
            NodeType::List => NodeType::List,
            NodeType::ArgList => NodeType::ArgList,
            NodeType::ParamList => NodeType::ParamList,
            NodeType::Block => NodeType::Block,
            NodeType::Assign => NodeType::Assign,
            NodeType::Conditional => NodeType::Conditional,
            NodeType::If => NodeType::If,
            NodeType::ElseIf => NodeType::ElseIf,
            NodeType::Else => NodeType::Else,
            NodeType::While => NodeType::While,
            NodeType::DoWhile => NodeType::DoWhile,
            NodeType::For => NodeType::For,
            NodeType::Return => NodeType::Return,
        }
    }
}

impl Clone for Node {
    fn clone(&self) -> (out: Node)
        ensures
            out@ == self@,
        decreases self, 2int,
    {
        Node { nodetype: self.nodetype.clone(), children: clone_nodes(&self.children) }
    }
}

impl Node {
    /// A node of the given kind without children.
    pub fn new(nodetype: NodeType) -> (out: Node)
        ensures
            out@ == Ast::leaf(nodetype@),
            out.nodetype == nodetype,
            out.children@.len() == 0,
            Ast::leaf(nodetype@).admissible() ==> out@.well_formed(),
    {
        let out = Node { nodetype, children: Vec::new() };
        assert(out@.children =~= Seq::empty());
        proof {
            if out@.admissible() {
                lemma_well_formed(out@);
            }
        }
        out
    }

    /// A node of the given kind with one child.
    pub fn unary(nodetype: NodeType, a: Node) -> (out: Node)
        ensures
            out@ == Ast::unary(nodetype@, a@),
            a@.well_formed() && Ast::unary(nodetype@, a@).admissible() ==> out@.well_formed(),
    {
        let mut children: Vec<Node> = Vec::new();
        children.push(a);
        let out = Node { nodetype, children };
        assert(out@.children =~= seq![a@]);
        proof {
            if a@.well_formed() && out@.admissible() {
                lemma_well_formed(out@);
            }
        }
        out
    }

    /// A node of the given kind with two children.
    pub fn binary(nodetype: NodeType, a: Node, b: Node) -> (out: Node)
        ensures
            out@ == Ast::binary(nodetype@, a@, b@),
            a@.well_formed() && b@.well_formed() && Ast::binary(nodetype@, a@, b@).admissible()
                ==> out@.well_formed(),
    {
        let mut children: Vec<Node> = Vec::new();
        children.push(a);
        children.push(b);
        let out = Node { nodetype, children };
        assert(out@.children =~= seq![a@, b@]);
        proof {
            if a@.well_formed() && b@.well_formed() && out@.admissible() {
                lemma_well_formed(out@);
            }
        }
        out
    }

    /// Appends a child.
    pub fn add_child(&mut self, a: Node)
        ensures
            final(self)@ == old(self)@.with_child(a@),
            all_well_formed(old(self)@.children) && a@.well_formed() ==> all_well_formed(
                final(self)@.children,
            ),
    {
        self.children.push(a);
        assert(self@.children =~= old(self)@.children.push(a@));
    }
}

/// A tree whose children are well formed and whose root is admissible is
/// well formed.
pub proof fn lemma_well_formed(t: Ast)
    requires
        t.admissible(),
        all_well_formed(t.children),
    ensures
        t.well_formed(),
{
    reveal(Ast::well_formed);
}

} // verus!
