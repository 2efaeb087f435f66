//! The directory-tree model: a recursive datatype of files and directories,
//! its mathematical view, and the file counter that supplies the transfer
//! progress denominator.
use vstd::prelude::*;

verus! {

/// One entry of a directory tree: a regular file with its content, or a
/// directory with its child entries. A whole tree is a `Vec<Node>`, the
/// entries of the (unnamed) root directory.
pub enum Node {
    File { name: String, data: Vec<u8> },
    Dir { name: String, children: Vec<Node> },
}

/// The mathematical view of a `Node`: names become character sequences and
/// file contents become byte sequences.
pub ghost enum NodeV {
    File { name: Seq<char>, data: Seq<u8> },
    Dir { name: Seq<char>, children: Seq<NodeV> },
}

/// The view of a single tree entry.
pub open spec fn node_view(n: Node) -> NodeV
    decreases n,
{
    match n {
        Node::File { name, data } => NodeV::File { name: name@, data: data@ },
        Node::Dir { name, children } => NodeV::Dir { name: name@, children: view_of(children@) },
    }
}

/// The view of a sequence of tree entries.
pub open spec fn view_of(nodes: Seq<Node>) -> Seq<NodeV>
    decreases nodes,
{
    if nodes.len() == 0 {
        Seq::empty()
    } else {
        seq![node_view(nodes[0])] + view_of(nodes.drop_first())
    }
}

/// How many regular files a single entry holds: one for a file, the count of
/// the children for a directory. Directories themselves are not counted.
pub open spec fn node_files(n: NodeV) -> nat
    decreases n,
{
    match n {
        NodeV::File { .. } => 1 as nat,
        NodeV::Dir { children, .. } => file_count(children),
    }
}

/// How many regular files a tree holds, at any nesting depth.
pub open spec fn file_count(nodes: Seq<NodeV>) -> nat
    decreases nodes,
{
    if nodes.len() == 0 {
        0
    } else {
        node_files(nodes[0]) + file_count(nodes.drop_first())
    }
}

/// The view of a sequence of entries has one element per entry, each the view
/// of the corresponding entry.
pub proof fn lemma_view_of(nodes: Seq<Node>)
    ensures
        view_of(nodes).len() == nodes.len(),
        forall|i: int| 0 <= i < nodes.len() ==> view_of(nodes)[i] == node_view(#[trigger] nodes[i]),
    decreases nodes,
{
    if nodes.len() > 0 {
        lemma_view_of(nodes.drop_first());
        assert forall|i: int| 0 <= i < nodes.len() implies view_of(nodes)[i] == node_view(
            #[trigger] nodes[i],
        ) by {
            if i > 0 {
                assert(nodes.drop_first()[i - 1] == nodes[i]);
            }
        }
    }
}

/// Peeling the first `i` entries off a tree splits its file count: the count
/// is what the remaining entries hold plus what the peeled entries held.
pub proof fn lemma_file_count_skip(nodes: Seq<NodeV>, i: int)
    requires
        0 <= i < nodes.len(),
    ensures
        file_count(nodes.skip(i)) == node_files(nodes[i]) + file_count(nodes.skip(i + 1)),
{
    let s = nodes.skip(i);
    assert(s[0] == nodes[i]);
    assert(s.drop_first() =~= nodes.skip(i + 1));
}

/// Counts the regular files in a tree, at any nesting depth; directories are
/// traversed but not counted. Returns `None` exactly when the count does not
/// fit in a machine word.
pub fn count_files(nodes: &Vec<Node>) -> (r: Option<u64>)
    ensures
        r matches Some(c) ==> c == file_count(view_of(nodes@)),
        r is None <==> file_count(view_of(nodes@)) > u64::MAX,
    decreases nodes@,
{
    let ghost v = view_of(nodes@);
    proof {
        lemma_view_of(nodes@);
        assert(v.skip(0) =~= v);
    }
    let mut total: u64 = 0;
    let n = nodes.len();
    let mut i: usize = 0;
    while i < n
        invariant
            n == nodes.len(),
            0 <= i <= n,
            v == view_of(nodes@),
            v.len() == n,
            forall|j: int| 0 <= j < n ==> v[j] == node_view(#[trigger] nodes@[j]),
            file_count(v) == total + file_count(v.skip(i as int)),
        decreases n - i,
    {
        proof {
            lemma_file_count_skip(v, i as int);
        }
        let here: u64 = match &nodes[i] {
            Node::File { .. } => 1,
            Node::Dir { children, .. } => {
                proof {
                    assert(decreases_to!(nodes@ => nodes@[i as int]));
                }
                match count_files(children) {
                    Some(c) => c,
                    None => {
                        return None;
                    },
                }
            },
        };
        assert(here == node_files(v[i as int]));
        total = match total.checked_add(here) {
            Some(t) => t,
            None => {
                return None;
            },
        };
        i += 1;
    }
    proof {
        assert(v.skip(n as int) =~= Seq::<NodeV>::empty());
    }
    Some(total)
}

} // verus!
