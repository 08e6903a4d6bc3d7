use vstd::prelude::*;

use crate::entries::EntryKey;
use crate::error::Pos;
use crate::parse::{ParseNode, Rule};

verus! {

/// A node of the syntax tree: a value and the place where its text starts.
#[derive(Debug)]
pub struct Node<T> {
    pub pos: Pos,
    pub value: T,
}

/// The place where the text of a parse node starts.
pub open spec fn pos_of(p: ParseNode) -> Pos {
    Pos { line: p.line, col: p.col }
}

/// A name written in the program.
#[derive(Debug)]
pub struct Identifier {
    pub value: String,
}

/// The data types that a program can name.
#[derive(Clone, Copy, Debug, PartialEq, Eq, Structural)]
pub enum DataType {
    Void,
    Bool,
    Int,
    Str,
    Unknown,
}

/// The data type that a type name stands for.
pub open spec fn datatype_of(name: Seq<char>) -> DataType {
    if name == "void"@ {
        DataType::Void
    } else if name == "bool"@ {
        DataType::Bool
    } else if name == "int"@ {
        DataType::Int
    } else if name == "string"@ {
        DataType::Str
    } else {
        DataType::Unknown
    }
}

impl DataType {
    /// The data type that a type name stands for; a name that is none of the
    /// language's types gives `Unknown`.
    pub fn from_str(name: &String) -> (d: DataType)
        ensures
            d == datatype_of(name@),
    {
        if *name == String::from_str("void") {
            DataType::Void
        } else if *name == String::from_str("bool") {
            DataType::Bool
        } else if *name == String::from_str("int") {
            DataType::Int
        } else if *name == String::from_str("string") {
            DataType::Str
        } else {
            DataType::Unknown
        }
    }
}

/// The parameters of a program or function: their names and, in the same
/// order, their types.
#[derive(Debug)]
pub struct ArgsList {
    pub identifiers: Vec<Node<Identifier>>,
    pub datatypes: Vec<Node<DataType>>,
}

/// The parameter names among the nodes of a parameter list.
pub open spec fn arg_identifiers(ps: Seq<ParseNode>) -> Seq<Node<Identifier>>
    decreases ps.len(),
{
    if ps.len() == 0 {
        seq![]
    } else {
        let rest = arg_identifiers(ps.drop_last());
        let p = ps.last();
        if p.rule == Rule::identifier {
            rest.push(Node { pos: pos_of(p), value: Identifier { value: p.text } })
        } else {
            rest
        }
    }
}

/// The parameter types among the nodes of a parameter list.
pub open spec fn arg_datatypes(ps: Seq<ParseNode>) -> Seq<Node<DataType>>
    decreases ps.len(),
{
    if ps.len() == 0 {
        seq![]
    } else {
        let rest = arg_datatypes(ps.drop_last());
        let p = ps.last();
        if p.rule == Rule::datatype {
            rest.push(Node { pos: pos_of(p), value: datatype_of(p.text@) })
        } else {
            rest
        }
    }
}

/// The nodes of a list that have the rule `r`, in source order.
pub open spec fn nodes_of_rule(ps: Seq<ParseNode>, r: Rule) -> Seq<ParseNode> {
    ps.filter(|p: ParseNode| p.rule == r)
}

/// The parameter names and types of a list are its `identifier` and
/// `datatype` nodes, each in source order: the `k`-th name is the text of
/// the `k`-th `identifier` node and the `k`-th type is the type named by the
/// `k`-th `datatype` node, each at its node's place.
pub proof fn lemma_args_in_source_order(ps: Seq<ParseNode>)
    ensures
        arg_identifiers(ps).len() == nodes_of_rule(ps, Rule::identifier).len(),
        forall|k: int|
            0 <= k < arg_identifiers(ps).len() ==> #[trigger] arg_identifiers(ps)[k] == (Node {
                pos: pos_of(nodes_of_rule(ps, Rule::identifier)[k]),
                value: Identifier { value: nodes_of_rule(ps, Rule::identifier)[k].text },
            }),
        arg_datatypes(ps).len() == nodes_of_rule(ps, Rule::datatype).len(),
        forall|k: int|
            0 <= k < arg_datatypes(ps).len() ==> #[trigger] arg_datatypes(ps)[k] == (Node {
                pos: pos_of(nodes_of_rule(ps, Rule::datatype)[k]),
                value: datatype_of(nodes_of_rule(ps, Rule::datatype)[k].text@),
            }),
    decreases ps.len(),
{
    reveal(Seq::filter);
    if ps.len() > 0 {
        lemma_args_in_source_order(ps.drop_last());
        assert(nodes_of_rule(ps, Rule::identifier) == if ps.last().rule == Rule::identifier {
            nodes_of_rule(ps.drop_last(), Rule::identifier).push(ps.last())
        } else {
            nodes_of_rule(ps.drop_last(), Rule::identifier)
        });
        assert(nodes_of_rule(ps, Rule::datatype) == if ps.last().rule == Rule::datatype {
            nodes_of_rule(ps.drop_last(), Rule::datatype).push(ps.last())
        } else {
            nodes_of_rule(ps.drop_last(), Rule::datatype)
        });
    }
}

/// A built parameter list pairs the `k`-th name with the `k`-th type, both
/// taken in source order from the node's children.
pub proof fn lemma_built_args_in_source_order(a: Node<ArgsList>, p: ParseNode)
    requires
        args_built(a, p),
    ensures
        a.value.identifiers@.len() == nodes_of_rule(p.children@, Rule::identifier).len(),
        a.value.datatypes@.len() == nodes_of_rule(p.children@, Rule::datatype).len(),
        forall|k: int|
            0 <= k < a.value.identifiers@.len() ==> #[trigger] a.value.identifiers@[k].value.value
                == nodes_of_rule(p.children@, Rule::identifier)[k].text,
        forall|k: int|
            0 <= k < a.value.datatypes@.len() ==> #[trigger] a.value.datatypes@[k].value == datatype_of(
                nodes_of_rule(p.children@, Rule::datatype)[k].text@,
            ),
{
    lemma_args_in_source_order(p.children@);
    assert forall|k: int| 0 <= k < a.value.identifiers@.len() implies #[trigger] a.value.identifiers@[k].value.value
        == nodes_of_rule(p.children@, Rule::identifier)[k].text by {
        assert(a.value.identifiers@[k] == arg_identifiers(p.children@)[k]);
    }
    assert forall|k: int| 0 <= k < a.value.datatypes@.len() implies #[trigger] a.value.datatypes@[k].value
        == datatype_of(nodes_of_rule(p.children@, Rule::datatype)[k].text@) by {
        assert(a.value.datatypes@[k] == arg_datatypes(p.children@)[k]);
    }
}

/// `a` is the parameter list built from the parse node `p`.
pub open spec fn args_built(a: Node<ArgsList>, p: ParseNode) -> bool {
    &&& a.pos == pos_of(p)
    &&& a.value.identifiers@ == arg_identifiers(p.children@)
    &&& a.value.datatypes@ == arg_datatypes(p.children@)
}

impl Node<ArgsList> {
    /// An empty parameter list, at no place in the source.
    pub fn new() -> (a: Self)
        ensures
            a.pos == (Pos { line: 0, col: 0 }),
            a.value.identifiers@.len() == 0,
            a.value.datatypes@.len() == 0,
    {
        Node {
            pos: Pos { line: 0, col: 0 },
            value: ArgsList { identifiers: Vec::new(), datatypes: Vec::new() },
        }
    }

    /// Builds a parameter list from its parse node: each `identifier` node
    /// gives a parameter name and each `datatype` node a parameter type.
    pub fn build(pair: ParseNode) -> (a: Self)
        ensures
            args_built(a, pair),
    {
        let ghost orig = pair.children@;
        let pos = Pos { line: pair.line, col: pair.col };
        let mut children = pair.children;
        let mut identifiers: Vec<Node<Identifier>> = Vec::new();
        let mut datatypes: Vec<Node<DataType>> = Vec::new();
        let n = children.len();
        let mut i: usize = 0;
        while i < n
            invariant
                n == orig.len(),
                i <= n,
                children@ == orig.skip(i as int),
                identifiers@ == arg_identifiers(orig.take(i as int)),
                datatypes@ == arg_datatypes(orig.take(i as int)),
            decreases n - i,
        {
            let c = children.remove(0);
            proof {
                assert(orig.take(i + 1).drop_last() =~= orig.take(i as int));
                assert(orig.take(i + 1).last() == orig[i as int]);
                assert(children@ =~= orig.skip(i + 1));
            }
            let cpos = Pos { line: c.line, col: c.col };
            if c.rule == Rule::identifier {
                identifiers.push(Node { pos: cpos, value: Identifier { value: c.text } });
            } else if c.rule == Rule::datatype {
                let d = DataType::from_str(&c.text);
                datatypes.push(Node { pos: cpos, value: d });
            }
            i = i + 1;
        }
        assert(orig.take(n as int) =~= orig);
        Node { pos, value: ArgsList { identifiers, datatypes } }
    }
}

impl ArgsList {
    /// The parameters as pairs of a name and a type, in order; a name without
    /// a type (or a type without a name) is left out.
    pub fn arguments(&self) -> (r: Vec<(String, DataType)>)
        ensures
            r@.len() == if self.identifiers@.len() <= self.datatypes@.len() {
                self.identifiers@.len()
            } else {
                self.datatypes@.len()
            },
            forall|i: int|
                0 <= i < r@.len() ==> #[trigger] r@[i] == (
                    self.identifiers@[i].value.value,
                    self.datatypes@[i].value,
                ),
    {
        let mut r: Vec<(String, DataType)> = Vec::new();
        let mut i: usize = 0;
        while i < self.identifiers.len() && i < self.datatypes.len()
            invariant
                i <= self.identifiers@.len(),
                i <= self.datatypes@.len(),
                r@.len() == i,
                forall|k: int|
                    0 <= k < i ==> #[trigger] r@[k] == (
                        self.identifiers@[k].value.value,
                        self.datatypes@[k].value,
                    ),
            decreases self.identifiers@.len() - i,
        {
            r.push((self.identifiers[i].value.value.clone(), self.datatypes[i].value));
            i = i + 1;
        }
        r
    }

    /// The types of the parameters, in order.
    pub fn datatype_list(&self) -> (r: Vec<DataType>)
        ensures
            r@.len() == self.datatypes@.len(),
            forall|i: int| 0 <= i < r@.len() ==> #[trigger] r@[i] == self.datatypes@[i].value,
    {
        let mut r: Vec<DataType> = Vec::new();
        let mut i: usize = 0;
        while i < self.datatypes.len()
            invariant
                i <= self.datatypes@.len(),
                r@.len() == i,
                forall|k: int| 0 <= k < i ==> #[trigger] r@[k] == self.datatypes@[k].value,
            decreases self.datatypes@.len() - i,
        {
            r.push(self.datatypes[i].value);
            i = i + 1;
        }
        r
    }
}

/// The keywords that open a condition block.
#[derive(Clone, Copy, Debug, PartialEq, Eq, Structural)]
pub enum ConditionKeyword {
    Always,
    Never,
}

impl View for ConditionKeyword {
    type V = ConditionKeyword;

    open spec fn view(&self) -> ConditionKeyword {
        *self
    }
}

impl EntryKey for ConditionKeyword {
    fn same_key(&self, other: &Self) -> (r: bool) {
        *self == *other
    }
}

} // verus!
