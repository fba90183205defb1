use vstd::prelude::*;
use crate::model::{
    Abi, Constness, DocView, FunctionDoc, Unsafety, Visibility, docs_view, strings_view,
};

verus! {

/// A node of a parsed source tree, as far as documentation is concerned.
///
/// Every kind of declaration is named here, so a walk over the tree handles
/// each of them explicitly: free functions are recorded, modules and other
/// scopes are entered, and methods, closures and macro invocations are
/// recognised and passed over.
pub enum Node {
    /// `mod name { items }`
    Module { name: String, items: Vec<Node> },
    /// A free function; `body` holds the items declared inside it.
    Function {
        name: String,
        signature: String,
        unsafety: Unsafety,
        constness: Constness,
        visibility: Visibility,
        abi: Abi,
        body: Vec<Node>,
    },
    /// A function inside a trait or an impl: not recorded.
    Method { name: String },
    /// A closure: not recorded.
    Closure,
    /// A macro invocation: whatever it would expand to is not seen.
    MacroCall,
    /// Any other construct that holds nested nodes (an impl block, a block).
    Scope { items: Vec<Node> },
    /// Any other construct.
    Other,
}

/// The records of one node, in pre-order, under the enclosing scope path.
pub open spec fn node_docs(n: Node, scope: Seq<Seq<char>>) -> Seq<DocView>
    decreases n, 0nat,
{
    match n {
        Node::Module { name, items } => nodes_docs(items, scope.push(name@), items.len() as nat),
        Node::Function { name, signature, unsafety, constness, visibility, abi, body } => {
            seq![
                DocView {
                    path: scope.push(name@),
                    signature: signature@,
                    unsafety,
                    constness,
                    visibility,
                    abi,
                },
            ] + nodes_docs(body, scope.push(name@), body.len() as nat)
        },
        Node::Scope { items } => nodes_docs(items, scope, items.len() as nat),
        _ => seq![],
    }
}

/// The records of the first `k` nodes of a list, in order.
pub open spec fn nodes_docs(ns: Vec<Node>, scope: Seq<Seq<char>>, k: nat) -> Seq<DocView>
    decreases ns, k,
{
    if k == 0 || k > ns.len() {
        seq![]
    } else {
        nodes_docs(ns, scope, (k - 1) as nat) + node_docs(ns[k - 1], scope)
    }
}

/// The records of a crate whose top-level items are `items`.
pub open spec fn extraction(items: Vec<Node>) -> Seq<DocView> {
    nodes_docs(items, seq![], items.len() as nat)
}

fn walk(n: &Node, scope: &mut Vec<String>, out: &mut Vec<FunctionDoc>)
    ensures
        final(scope)@ == old(scope)@,
        docs_view(final(out)@) == docs_view(old(out)@) + node_docs(*n, strings_view(old(scope)@)),
    decreases n, 0nat,
{
    let ghost sc = strings_view(scope@);
    match n {
        Node::Module { name, items } => {
            scope.push(name.clone());
            assert(strings_view(scope@) =~= sc.push(name@));
            walk_list(items, scope, out);
            scope.pop();
            assert(scope@ =~= old(scope)@);
        },
        Node::Function { name, signature, unsafety, constness, visibility, abi, body } => {
            scope.push(name.clone());
            assert(strings_view(scope@) =~= sc.push(name@));
            let doc = FunctionDoc {
                path: crate::model::copy_strings(scope),
                signature: signature.clone(),
                unsafety: *unsafety,
                constness: *constness,
                visibility: *visibility,
                abi: *abi,
            };
            let ghost before = docs_view(out@);
            out.push(doc);
            assert(docs_view(out@) =~= before + seq![doc@]);
            walk_list(body, scope, out);
            scope.pop();
            assert(scope@ =~= old(scope)@);
            assert(docs_view(out@) =~= docs_view(old(out)@) + node_docs(*n, sc));
        },
        Node::Scope { items } => {
            walk_list(items, scope, out);
        },
        _ => {
            assert(docs_view(out@) =~= docs_view(old(out)@) + node_docs(*n, sc));
        },
    }
}

fn walk_list(ns: &Vec<Node>, scope: &mut Vec<String>, out: &mut Vec<FunctionDoc>)
    ensures
        final(scope)@ == old(scope)@,
        docs_view(final(out)@) == docs_view(old(out)@) + nodes_docs(
            *ns,
            strings_view(old(scope)@),
            ns.len() as nat,
        ),
    decreases ns, ns.len() + 1,
{
    let ghost sc = strings_view(scope@);
    let mut i: usize = 0;
    assert(docs_view(out@) =~= docs_view(old(out)@) + nodes_docs(*ns, sc, 0));
    while i < ns.len()
        invariant
            i <= ns.len(),
            scope@ == old(scope)@,
            sc == strings_view(scope@),
            docs_view(out@) == docs_view(old(out)@) + nodes_docs(*ns, sc, i as nat),
        decreases ns.len() - i,
    {
        walk(&ns[i], scope, out);
        assert(nodes_docs(*ns, sc, (i + 1) as nat) == nodes_docs(*ns, sc, i as nat) + node_docs(
            ns[i as int],
            sc,
        ));
        i = i + 1;
        assert(docs_view(out@) =~= docs_view(old(out)@) + nodes_docs(*ns, sc, i as nat));
    }
}

/// The documentation records of a crate whose top-level items are `items`:
/// every free function, in pre-order, each with the path of the modules and
/// functions that enclose it.
pub fn extract(items: &Vec<Node>) -> (r: Vec<FunctionDoc>)
    ensures
        docs_view(r@) == extraction(*items),
{
    let mut scope: Vec<String> = Vec::new();
    let mut out: Vec<FunctionDoc> = Vec::new();
    assert(strings_view(scope@) =~= seq![]);
    walk_list(items, &mut scope, &mut out);
    assert(docs_view(out@) =~= extraction(*items));
    out
}

} // verus!
