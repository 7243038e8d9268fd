use vstd::prelude::*;

verus! {

/// The syntactic category of a parse-tree node.
#[derive(Clone, Copy, Debug, PartialEq, Eq, Structural)]
pub enum Rule {
    Ident,
    Function,
    At,
    Array,
    Object,
    Keyval,
    String,
    Inner,
    Number,
    Bool,
    Null,
    Pipe,
    InfixExpr,
    IndexedValue,
    PlusOp,
}

/// A node of a parsed query: its category, its source text, the span of
/// character offsets it covers, and its children in source order.
#[derive(Debug, PartialEq)]
pub struct Node {
    pub rule: Rule,
    pub text: String,
    pub start: usize,
    pub end: usize,
    pub children: Vec<Node>,
}

impl Node {
    /// Two nodes agree in category, text, span and, recursively, children.
    pub open spec fn same(self, other: Node) -> bool
        decreases self,
    {
        &&& self.rule == other.rule
        &&& self.text@ == other.text@
        &&& self.start == other.start
        &&& self.end == other.end
        &&& self.children@.len() == other.children@.len()
        &&& forall|i: int|
            0 <= i < self.children@.len() ==> (#[trigger] self.children@[i]).same(other.children@[i])
    }

    pub fn new(rule: Rule, text: String, start: usize, end: usize, children: Vec<Node>) -> (r: Node)
        ensures
            r.rule == rule,
            r.text@ == text@,
            r.start == start,
            r.end == end,
            r.children@ == children@,
    {
        Node { rule, text, start, end, children }
    }

    /// Every node is the same as itself.
    pub proof fn lemma_same_refl(self)
        ensures
            self.same(self),
        decreases self,
    {
        assert forall|i: int| 0 <= i < self.children@.len() implies (#[trigger] self.children@[i]).same(
            self.children@[i],
        ) by {
            self.children@[i].lemma_same_refl();
        }
    }

    /// A deep copy of the node.
    pub fn copy(&self) -> (r: Node)
        ensures
            self.same(r),
        decreases self,
    {
        let mut children: Vec<Node> = Vec::new();
        let mut i: usize = 0;
        while i < self.children.len()
            invariant
                i <= self.children@.len(),
                children@.len() == i,
                forall|j: int| 0 <= j < i ==> (#[trigger] self.children@[j]).same(children@[j]),
            decreases self.children@.len() - i,
        {
            children.push(self.children[i].copy());
            i = i + 1;
        }
        Node { rule: self.rule, text: self.text.clone(), start: self.start, end: self.end, children }
    }
}

} // verus!
