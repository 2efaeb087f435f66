//! Tree transfer: turns a directory tree into the depth-first sequence of
//! transfer steps that mirrors it on the other side, numbering each file so
//! that progress can be reported after every one.
use vstd::prelude::*;
use crate::tree::{
    file_count, lemma_file_count_skip, lemma_view_of, node_files, node_view, view_of, Node, NodeV,
};
use crate::progress::{
    lemma_percent_complete, lemma_percent_monotonic, lemma_percent_partial, percent_spec,
};

verus! {

/// One step of a tree transfer, with paths relative to the transfer root:
/// remove a directory tree wholesale, create a directory, or send one file's
/// bytes. `seq` is the position of the file among all files of the operation,
/// counted from 1 in transfer order. Mirroring plans never clear; only the
/// snapshot store does, to keep at most one generation.
pub enum Step {
    ClearDir { path: Vec<String> },
    MkDir { path: Vec<String> },
    Send { path: Vec<String>, data: Vec<u8>, seq: u64 },
}

/// The mathematical view of a transfer step.
pub ghost enum StepV {
    ClearDir { path: Seq<Seq<char>> },
    MkDir { path: Seq<Seq<char>> },
    Send { path: Seq<Seq<char>>, data: Seq<u8>, seq: int },
}

/// The view of a relative path: each segment as a character sequence.
pub open spec fn path_view(p: Seq<String>) -> Seq<Seq<char>> {
    p.map_values(|s: String| s@)
}

/// The view of a single step.
pub open spec fn step_view(s: Step) -> StepV {
    match s {
        Step::ClearDir { path } => StepV::ClearDir { path: path_view(path@) },
        Step::MkDir { path } => StepV::MkDir { path: path_view(path@) },
        Step::Send { path, data, seq } => StepV::Send {
            path: path_view(path@),
            data: data@,
            seq: seq as int,
        },
    }
}

/// The view of a step sequence.
pub open spec fn plan_view(steps: Seq<Step>) -> Seq<StepV> {
    steps.map_values(|s: Step| step_view(s))
}

/// The steps that transfer one entry rooted at `base`, when `done` files have
/// already been transferred: a file is sent as file number `done + 1`; a
/// directory is created and then its children are transferred inside it.
pub open spec fn node_plan(n: NodeV, base: Seq<Seq<char>>, done: int) -> Seq<StepV>
    decreases n,
{
    match n {
        NodeV::File { name, data } => seq![
            StepV::Send { path: base.push(name), data: data, seq: done + 1 },
        ],
        NodeV::Dir { name, children } => seq![StepV::MkDir { path: base.push(name) }]
            + tree_plan(children, base.push(name), done),
    }
}

/// The steps that transfer a sequence of sibling entries, depth first and one
/// entry at a time, continuing the file numbering from `done`.
pub open spec fn tree_plan(nodes: Seq<NodeV>, base: Seq<Seq<char>>, done: int) -> Seq<StepV>
    decreases nodes,
{
    if nodes.len() == 0 {
        Seq::empty()
    } else {
        node_plan(nodes[0], base, done) + tree_plan(
            nodes.drop_first(),
            base,
            done + node_files(nodes[0]),
        )
    }
}

/// The plan of a whole upload operation: the transfer root is created
/// first, then the tree's entries are mirrored into it, files numbered
/// from 1.
pub open spec fn full_plan(nodes: Seq<NodeV>) -> Seq<StepV> {
    seq![StepV::MkDir { path: Seq::empty() }] + tree_plan(nodes, Seq::empty(), 0)
}

/// Peeling the first `i` entries off a sibling sequence splits its plan at
/// the entry boundary.
pub proof fn lemma_tree_plan_skip(nodes: Seq<NodeV>, base: Seq<Seq<char>>, done: int, i: int)
    requires
        0 <= i < nodes.len(),
    ensures
        tree_plan(nodes.skip(i), base, done) == node_plan(nodes[i], base, done) + tree_plan(
            nodes.skip(i + 1),
            base,
            done + node_files(nodes[i]),
        ),
{
    let s = nodes.skip(i);
    assert(s[0] == nodes[i]);
    assert(s.drop_first() =~= nodes.skip(i + 1));
}

/// The files one entry holds, as (path, content) pairs in transfer order,
/// with paths rooted at `base`.
pub open spec fn node_flat_files(n: NodeV, base: Seq<Seq<char>>) -> Seq<
    (Seq<Seq<char>>, Seq<u8>),
>
    decreases n,
{
    match n {
        NodeV::File { name, data } => seq![(base.push(name), data)],
        NodeV::Dir { name, children } => flat_files(children, base.push(name)),
    }
}

/// The files a sequence of sibling entries holds, in transfer order.
pub open spec fn flat_files(nodes: Seq<NodeV>, base: Seq<Seq<char>>) -> Seq<
    (Seq<Seq<char>>, Seq<u8>),
>
    decreases nodes,
{
    if nodes.len() == 0 {
        Seq::empty()
    } else {
        node_flat_files(nodes[0], base) + flat_files(nodes.drop_first(), base)
    }
}

/// The directories one entry holds (itself included if it is one), as paths
/// rooted at `base`, in transfer order.
pub open spec fn node_flat_dirs(n: NodeV, base: Seq<Seq<char>>) -> Seq<Seq<Seq<char>>>
    decreases n,
{
    match n {
        NodeV::File { .. } => Seq::empty(),
        NodeV::Dir { name, children } => seq![base.push(name)] + flat_dirs(
            children,
            base.push(name),
        ),
    }
}

/// The directories a sequence of sibling entries holds, in transfer order.
pub open spec fn flat_dirs(nodes: Seq<NodeV>, base: Seq<Seq<char>>) -> Seq<Seq<Seq<char>>>
    decreases nodes,
{
    if nodes.len() == 0 {
        Seq::empty()
    } else {
        node_flat_dirs(nodes[0], base) + flat_dirs(nodes.drop_first(), base)
    }
}

/// The file-sending steps of a plan, in order.
pub open spec fn sends_of(p: Seq<StepV>) -> Seq<StepV>
    decreases p,
{
    if p.len() == 0 {
        Seq::empty()
    } else {
        (match p[0] {
            StepV::Send { .. } => seq![p[0]],
            _ => Seq::empty(),
        }) + sends_of(p.drop_first())
    }
}

/// The directory-creation steps of a plan, as their paths, in order.
pub open spec fn mkdirs_of(p: Seq<StepV>) -> Seq<Seq<Seq<char>>>
    decreases p,
{
    if p.len() == 0 {
        Seq::empty()
    } else {
        (match p[0] {
            StepV::MkDir { path } => seq![path],
            _ => Seq::empty(),
        }) + mkdirs_of(p.drop_first())
    }
}

/// The send steps for a file list, numbered consecutively after `done`.
pub open spec fn numbered(files: Seq<(Seq<Seq<char>>, Seq<u8>)>, done: int) -> Seq<StepV> {
    Seq::new(
        files.len(),
        |k: int| StepV::Send { path: files[k].0, data: files[k].1, seq: done + k + 1 },
    )
}

/// A one-step plan has that step as its only send, or none.
pub proof fn lemma_sends_of_single(s: StepV)
    ensures
        sends_of(seq![s]) == (match s {
            StepV::Send { .. } => seq![s],
            _ => Seq::<StepV>::empty(),
        }),
{
    reveal_with_fuel(sends_of, 2);
    assert(seq![s].drop_first() =~= Seq::<StepV>::empty());
    assert(sends_of(seq![s]) =~= (match s {
        StepV::Send { .. } => seq![s],
        _ => Seq::<StepV>::empty(),
    }));
}

/// A one-step plan creates that step's directory, or none.
pub proof fn lemma_mkdirs_of_single(s: StepV)
    ensures
        mkdirs_of(seq![s]) == (match s {
            StepV::MkDir { path } => seq![path],
            _ => Seq::<Seq<Seq<char>>>::empty(),
        }),
{
    reveal_with_fuel(mkdirs_of, 2);
    assert(seq![s].drop_first() =~= Seq::<StepV>::empty());
    assert(mkdirs_of(seq![s]) =~= (match s {
        StepV::MkDir { path } => seq![path],
        _ => Seq::<Seq<Seq<char>>>::empty(),
    }));
}

/// Sends of consecutive plans are the plans' sends, in order.
pub proof fn lemma_sends_of_concat(a: Seq<StepV>, b: Seq<StepV>)
    ensures
        sends_of(a + b) == sends_of(a) + sends_of(b),
    decreases a,
{
    if a.len() == 0 {
        assert(a + b =~= b);
        assert(sends_of(a) + sends_of(b) =~= sends_of(b));
    } else {
        assert((a + b).drop_first() =~= a.drop_first() + b);
        assert((a + b)[0] == a[0]);
        lemma_sends_of_concat(a.drop_first(), b);
        assert(sends_of(a + b) =~= sends_of(a) + sends_of(b));
    }
}

/// Directory creations of consecutive plans concatenate likewise.
pub proof fn lemma_mkdirs_of_concat(a: Seq<StepV>, b: Seq<StepV>)
    ensures
        mkdirs_of(a + b) == mkdirs_of(a) + mkdirs_of(b),
    decreases a,
{
    if a.len() == 0 {
        assert(a + b =~= b);
        assert(mkdirs_of(a) + mkdirs_of(b) =~= mkdirs_of(b));
    } else {
        assert((a + b).drop_first() =~= a.drop_first() + b);
        assert((a + b)[0] == a[0]);
        lemma_mkdirs_of_concat(a.drop_first(), b);
        assert(mkdirs_of(a + b) =~= mkdirs_of(a) + mkdirs_of(b));
    }
}

/// Numbering a concatenated file list numbers the second part after the
/// first.
pub proof fn lemma_numbered_concat(
    f1: Seq<(Seq<Seq<char>>, Seq<u8>)>,
    f2: Seq<(Seq<Seq<char>>, Seq<u8>)>,
    done: int,
)
    ensures
        numbered(f1 + f2, done) == numbered(f1, done) + numbered(f2, done + f1.len()),
{
    assert(numbered(f1 + f2, done) =~= numbered(f1, done) + numbered(f2, done + f1.len()));
}

/// An entry holds as many flattened files as it counts.
pub proof fn lemma_node_flat_files_len(n: NodeV, base: Seq<Seq<char>>)
    ensures
        node_flat_files(n, base).len() == node_files(n),
    decreases n,
{
    match n {
        NodeV::File { .. } => {},
        NodeV::Dir { name, children } => {
            lemma_flat_files_len(children, base.push(name));
        },
    }
}

/// A sibling sequence holds as many flattened files as it counts.
pub proof fn lemma_flat_files_len(nodes: Seq<NodeV>, base: Seq<Seq<char>>)
    ensures
        flat_files(nodes, base).len() == file_count(nodes),
    decreases nodes,
{
    if nodes.len() > 0 {
        lemma_node_flat_files_len(nodes[0], base);
        lemma_flat_files_len(nodes.drop_first(), base);
    }
}

/// Law: the files sent when transferring one entry are exactly the entry's
/// files — same paths, byte-identical contents, in depth-first order — with
/// consecutive file numbers continuing from `done`.
pub proof fn lemma_node_plan_sends(n: NodeV, base: Seq<Seq<char>>, done: int)
    ensures
        sends_of(node_plan(n, base, done)) == numbered(node_flat_files(n, base), done),
    decreases n,
{
    match n {
        NodeV::File { name, data } => {
            lemma_sends_of_single(StepV::Send { path: base.push(name), data: data, seq: done + 1 });
            assert(sends_of(node_plan(n, base, done)) =~= numbered(
                node_flat_files(n, base),
                done,
            ));
        },
        NodeV::Dir { name, children } => {
            let sub = tree_plan(children, base.push(name), done);
            let mk = seq![StepV::MkDir { path: base.push(name) }];
            lemma_sends_of_concat(mk, sub);
            lemma_sends_of_single(StepV::MkDir { path: base.push(name) });
            lemma_tree_plan_sends(children, base.push(name), done);
            assert(sends_of(node_plan(n, base, done)) =~= numbered(
                node_flat_files(n, base),
                done,
            ));
        },
    }
}

/// Law: the files sent when transferring a sibling sequence are exactly its
/// flattened files, numbered consecutively after `done`.
pub proof fn lemma_tree_plan_sends(nodes: Seq<NodeV>, base: Seq<Seq<char>>, done: int)
    ensures
        sends_of(tree_plan(nodes, base, done)) == numbered(flat_files(nodes, base), done),
    decreases nodes,
{
    if nodes.len() == 0 {
        assert(sends_of(tree_plan(nodes, base, done)) =~= numbered(
            flat_files(nodes, base),
            done,
        ));
    } else {
        let first = node_plan(nodes[0], base, done);
        let rest = tree_plan(nodes.drop_first(), base, done + node_files(nodes[0]));
        lemma_sends_of_concat(first, rest);
        lemma_node_plan_sends(nodes[0], base, done);
        lemma_tree_plan_sends(nodes.drop_first(), base, done + node_files(nodes[0]));
        lemma_node_flat_files_len(nodes[0], base);
        lemma_numbered_concat(
            node_flat_files(nodes[0], base),
            flat_files(nodes.drop_first(), base),
            done,
        );
    }
}

/// Law: the directories created when transferring one entry are exactly the
/// entry's directories, parents before their contents.
pub proof fn lemma_node_plan_dirs(n: NodeV, base: Seq<Seq<char>>, done: int)
    ensures
        mkdirs_of(node_plan(n, base, done)) == node_flat_dirs(n, base),
    decreases n,
{
    match n {
        NodeV::File { name, data } => {
            lemma_mkdirs_of_single(
                StepV::Send { path: base.push(name), data: data, seq: done + 1 },
            );
            assert(mkdirs_of(node_plan(n, base, done)) =~= node_flat_dirs(n, base));
        },
        NodeV::Dir { name, children } => {
            let sub = tree_plan(children, base.push(name), done);
            let mk = seq![StepV::MkDir { path: base.push(name) }];
            lemma_mkdirs_of_concat(mk, sub);
            lemma_mkdirs_of_single(StepV::MkDir { path: base.push(name) });
            lemma_tree_plan_dirs(children, base.push(name), done);
        },
    }
}

/// Law: the directories created when transferring a sibling sequence are
/// exactly its flattened directories, in depth-first order.
pub proof fn lemma_tree_plan_dirs(nodes: Seq<NodeV>, base: Seq<Seq<char>>, done: int)
    ensures
        mkdirs_of(tree_plan(nodes, base, done)) == flat_dirs(nodes, base),
    decreases nodes,
{
    if nodes.len() == 0 {
        assert(mkdirs_of(tree_plan(nodes, base, done)) =~= flat_dirs(nodes, base));
    } else {
        let first = node_plan(nodes[0], base, done);
        let rest = tree_plan(nodes.drop_first(), base, done + node_files(nodes[0]));
        lemma_mkdirs_of_concat(first, rest);
        lemma_node_plan_dirs(nodes[0], base, done);
        lemma_tree_plan_dirs(nodes.drop_first(), base, done + node_files(nodes[0]));
    }
}

/// Appends `name` to a copy of `base`, yielding the path of a child entry.
fn child_path(base: &Vec<String>, name: &String) -> (r: Vec<String>)
    ensures
        path_view(r@) == path_view(base@).push(name@),
{
    let mut r = base.clone();
    proof {
        assert(r@ =~= base@);
    }
    r.push(name.clone());
    proof {
        assert(path_view(r@) =~= path_view(base@).push(name@));
    }
    r
}

/// Copies one file content.
fn clone_bytes(data: &Vec<u8>) -> (r: Vec<u8>)
    ensures
        r@ == data@,
{
    let r = data.clone();
    proof {
        assert(r@ =~= data@);
    }
    r
}

/// Appends to `out` the steps that transfer the entries `nodes` under the
/// relative path `base`, when `done` files of the operation have already been
/// transferred; returns the updated transferred-file count.
pub fn extend_plan(nodes: &Vec<Node>, base: &Vec<String>, done: u64, out: &mut Vec<Step>) -> (r:
    u64)
    requires
        done + file_count(view_of(nodes@)) <= u64::MAX,
    ensures
        r == done + file_count(view_of(nodes@)),
        plan_view(final(out)@) == plan_view(old(out)@) + tree_plan(
            view_of(nodes@),
            path_view(base@),
            done as int,
        ),
    decreases nodes@,
{
    let ghost v = view_of(nodes@);
    let ghost bv = path_view(base@);
    let ghost d0 = done as int;
    let ghost p0 = plan_view(out@);
    proof {
        lemma_view_of(nodes@);
        assert(v.skip(0) =~= v);
    }
    let n = nodes.len();
    let mut cur: u64 = done;
    let mut i: usize = 0;
    while i < n
        invariant
            n == nodes.len(),
            0 <= i <= n,
            v == view_of(nodes@),
            bv == path_view(base@),
            v.len() == n,
            forall|j: int| 0 <= j < n ==> v[j] == node_view(#[trigger] nodes@[j]),
            d0 + file_count(v) <= u64::MAX,
            cur as int == d0 + file_count(v) - file_count(v.skip(i as int)),
            plan_view(out@) + tree_plan(v.skip(i as int), bv, cur as int) == p0 + tree_plan(
                v,
                bv,
                d0,
            ),
        decreases n - i,
    {
        proof {
            lemma_file_count_skip(v, i as int);
            lemma_tree_plan_skip(v, bv, cur as int, i as int);
        }
        let ghost plan_before = plan_view(out@);
        match &nodes[i] {
            Node::File { name, data } => {
                let step = Step::Send {
                    path: child_path(base, name),
                    data: clone_bytes(data),
                    seq: cur + 1,
                };
                proof {
                    assert(step_view(step) == node_plan(v[i as int], bv, cur as int)[0]);
                }
                out.push(step);
                proof {
                    assert(plan_view(out@) =~= plan_before + node_plan(
                        v[i as int],
                        bv,
                        cur as int,
                    ));
                }
                cur = cur + 1;
            },
            Node::Dir { name, children } => {
                let dir_path = child_path(base, name);
                let ghost child_base = bv.push(name@);
                let step = Step::MkDir { path: dir_path };
                out.push(step);
                proof {
                    assert(plan_view(out@) =~= plan_before + seq![
                        StepV::MkDir { path: child_base },
                    ]);
                    assert(decreases_to!(nodes@ => nodes@[i as int]));
                }
                let sub_base = child_path(base, name);
                cur = extend_plan(children, &sub_base, cur, out);
                proof {
                    assert(plan_view(out@) =~= plan_before + node_plan(
                        v[i as int],
                        bv,
                        (d0 + file_count(v) - file_count(v.skip(i as int))) as int,
                    ));
                }
            },
        }
        proof {
            assert(plan_view(out@) + tree_plan(v.skip(i as int + 1), bv, cur as int) =~= p0
                + tree_plan(v, bv, d0));
        }
        i += 1;
    }
    proof {
        assert(v.skip(n as int) =~= Seq::<NodeV>::empty());
        assert(plan_view(out@) =~= p0 + tree_plan(v, bv, d0));
    }
    cur
}

/// Law (round trip): a tree transfer is lossless. The steps that upload a
/// tree send exactly the tree's files — same paths, byte-identical contents,
/// in depth-first order — and create exactly its directories, each before its
/// contents lower down the plan; so uploading a tree and then downloading the
/// uploaded tree back yields the same files and directory structure.
pub proof fn lemma_transfer_round_trip(nodes: Seq<NodeV>, base: Seq<Seq<char>>, done: int)
    ensures
        sends_of(tree_plan(nodes, base, done)) == numbered(flat_files(nodes, base), done),
        mkdirs_of(tree_plan(nodes, base, done)) == flat_dirs(nodes, base),
{
    lemma_tree_plan_sends(nodes, base, done);
    lemma_tree_plan_dirs(nodes, base, done);
}

/// Law (progress): a whole-tree upload of `total == file_count(nodes)` files
/// emits one event per file; the `k`-th event carries completed count
/// `k + 1`, so the counter rises by exactly one per event; the percentages
/// those counts determine are non-decreasing; the last event's percentage is
/// exactly 100; and every earlier event's is strictly below 100.
pub proof fn lemma_transfer_progress(nodes: Seq<NodeV>, base: Seq<Seq<char>>)
    requires
        file_count(nodes) >= 1,
    ensures
        sends_of(tree_plan(nodes, base, 0)).len() == file_count(nodes),
        forall|k: int|
            0 <= k < file_count(nodes) ==> #[trigger] sends_of(tree_plan(nodes, base, 0))[k]
                == (StepV::Send {
                path: flat_files(nodes, base)[k].0,
                data: flat_files(nodes, base)[k].1,
                seq: k + 1,
            }),
        forall|a: int, b: int|
            1 <= a <= b <= file_count(nodes) ==> percent_spec(a, file_count(nodes) as int)
                <= percent_spec(b, file_count(nodes) as int),
        percent_spec(file_count(nodes) as int, file_count(nodes) as int) == 100,
        forall|a: int|
            1 <= a < file_count(nodes) ==> percent_spec(a, file_count(nodes) as int) < 100,
{
    lemma_tree_plan_sends(nodes, base, 0);
    lemma_flat_files_len(nodes, base);
    let total = file_count(nodes) as int;
    assert forall|a: int, b: int| 1 <= a <= b <= total implies percent_spec(a, total)
        <= percent_spec(b, total) by {
        lemma_percent_monotonic(a, b, total);
    }
    lemma_percent_complete(total);
    assert forall|a: int| 1 <= a < total implies percent_spec(a, total) < 100 by {
        lemma_percent_partial(a, total);
    }
}


/// The path one step touches.
pub open spec fn step_path(s: StepV) -> Seq<Seq<char>> {
    match s {
        StepV::ClearDir { path } => path,
        StepV::MkDir { path } => path,
        StepV::Send { path, .. } => path,
    }
}

/// The parent directory of the path one step touches.
pub open spec fn step_parent(s: StepV) -> Seq<Seq<char>> {
    step_path(s).take(step_path(s).len() as int - 1)
}

/// Whether a step before position `k` of the plan creates the directory `q`.
pub open spec fn dir_created_before(plan: Seq<StepV>, k: int, q: Seq<Seq<char>>) -> bool {
    exists|j: int| 0 <= j < k && plan[j] == (StepV::MkDir { path: q })
}

/// A plan is grounded at `base` when every step works directly inside `base`
/// or inside a directory that an earlier step of the same plan created.
pub open spec fn plan_grounded(plan: Seq<StepV>, base: Seq<Seq<char>>) -> bool {
    forall|k: int|
        0 <= k < plan.len() ==> step_path(#[trigger] plan[k]).len() >= 1 && (step_parent(plan[k])
            == base || dir_created_before(plan, k, step_parent(plan[k])))
}

/// Two grounded plans stay grounded when run one after the other.
pub proof fn lemma_grounded_concat(a: Seq<StepV>, b: Seq<StepV>, base: Seq<Seq<char>>)
    requires
        plan_grounded(a, base),
        plan_grounded(b, base),
    ensures
        plan_grounded(a + b, base),
{
    let c = a + b;
    assert forall|k: int|
        0 <= k < c.len() implies step_path(#[trigger] c[k]).len() >= 1 && (step_parent(c[k])
        == base || dir_created_before(c, k, step_parent(c[k]))) by {
        if k < a.len() {
            assert(c[k] == a[k]);
            if step_parent(a[k]) != base {
                let q = step_parent(a[k]);
                let j = choose|j: int| 0 <= j < k && a[j] == (StepV::MkDir { path: q });
                assert(c[j] == a[j]);
            }
        } else {
            let kb = k - a.len();
            assert(c[k] == b[kb]);
            if step_parent(b[kb]) != base {
                let q = step_parent(b[kb]);
                let j = choose|j: int| 0 <= j < kb && b[j] == (StepV::MkDir { path: q });
                assert(c[j + a.len()] == b[j]);
            }
        }
    }
}

/// Law: the plan of one entry is grounded at the base it is transferred
/// into — it only ever works inside `base` or inside a directory it created
/// earlier.
pub proof fn lemma_node_plan_grounded(n: NodeV, base: Seq<Seq<char>>, done: int)
    ensures
        plan_grounded(node_plan(n, base, done), base),
    decreases n,
{
    match n {
        NodeV::File { name, data } => {
            let plan = node_plan(n, base, done);
            assert(base.push(name).take(base.len() as int) =~= base);
            assert(step_parent(plan[0]) == base);
        },
        NodeV::Dir { name, children } => {
            let d = base.push(name);
            let sub = tree_plan(children, d, done);
            let plan = node_plan(n, base, done);
            lemma_tree_plan_grounded(children, d, done);
            assert(d.take(base.len() as int) =~= base);
            assert forall|k: int|
                0 <= k < plan.len() implies step_path(#[trigger] plan[k]).len() >= 1 && (
            step_parent(plan[k]) == base || dir_created_before(plan, k, step_parent(plan[k]))) by {
                if k == 0 {
                    assert(step_parent(plan[0]) == base);
                } else {
                    assert(plan[k] == sub[k - 1]);
                    if step_parent(sub[k - 1]) == d {
                        assert(plan[0] == (StepV::MkDir { path: d }));
                    } else {
                        let q = step_parent(sub[k - 1]);
                        let j = choose|j: int| 0 <= j < k - 1 && sub[j] == (StepV::MkDir {
                            path: q,
                        });
                        assert(plan[j + 1] == sub[j]);
                    }
                }
            }
        },
    }
}

/// Law: the plan of a sibling sequence is grounded at its base.
pub proof fn lemma_tree_plan_grounded(nodes: Seq<NodeV>, base: Seq<Seq<char>>, done: int)
    ensures
        plan_grounded(tree_plan(nodes, base, done), base),
    decreases nodes,
{
    if nodes.len() > 0 {
        lemma_node_plan_grounded(nodes[0], base, done);
        lemma_tree_plan_grounded(nodes.drop_first(), base, done + node_files(nodes[0]));
        lemma_grounded_concat(
            node_plan(nodes[0], base, done),
            tree_plan(nodes.drop_first(), base, done + node_files(nodes[0])),
            base,
        );
    }
}

/// Law: in a whole-operation upload plan the transfer root is created first,
/// and every later step works inside a directory that an earlier step of the
/// plan created — directories are created as needed, each parent before its
/// contents.
pub proof fn lemma_plan_creates_parents_first(nodes: Seq<NodeV>)
    ensures
        full_plan(nodes)[0] == (StepV::MkDir { path: Seq::empty() }),
        forall|k: int|
            1 <= k < full_plan(nodes).len() ==> dir_created_before(
                full_plan(nodes),
                k,
                step_parent(#[trigger] full_plan(nodes)[k]),
            ),
{
    let sub = tree_plan(nodes, Seq::empty(), 0);
    let plan = full_plan(nodes);
    lemma_tree_plan_grounded(nodes, Seq::empty(), 0);
    assert forall|k: int| 1 <= k < plan.len() implies dir_created_before(
        plan,
        k,
        step_parent(#[trigger] plan[k]),
    ) by {
        assert(plan[k] == sub[k - 1]);
        if step_parent(sub[k - 1]) == Seq::<Seq<char>>::empty() {
            assert(plan[0] == (StepV::MkDir { path: Seq::<Seq<char>>::empty() }));
        } else {
            let q = step_parent(sub[k - 1]);
            let j = choose|j: int| 0 <= j < k - 1 && sub[j] == (StepV::MkDir { path: q });
            assert(plan[j + 1] == sub[j]);
        }
    }
}


/// Law: a whole-operation plan creates the transfer root and the tree's
/// directories, and sends exactly the tree's files, numbered from 1 — the
/// form of the round-trip and progress laws that the orchestrators' plans
/// take.
pub proof fn lemma_full_plan(nodes: Seq<NodeV>)
    ensures
        sends_of(full_plan(nodes)) == numbered(flat_files(nodes, Seq::empty()), 0),
        mkdirs_of(full_plan(nodes)) == seq![Seq::<Seq<char>>::empty()] + flat_dirs(
            nodes,
            Seq::empty(),
        ),
{
    let mk = seq![StepV::MkDir { path: Seq::<Seq<char>>::empty() }];
    let sub = tree_plan(nodes, Seq::empty(), 0);
    lemma_sends_of_concat(mk, sub);
    lemma_sends_of_single(StepV::MkDir { path: Seq::<Seq<char>>::empty() });
    lemma_mkdirs_of_concat(mk, sub);
    lemma_mkdirs_of_single(StepV::MkDir { path: Seq::<Seq<char>>::empty() });
    lemma_tree_plan_sends(nodes, Seq::empty(), 0);
    lemma_tree_plan_dirs(nodes, Seq::empty(), 0);
    assert(sends_of(full_plan(nodes)) =~= numbered(flat_files(nodes, Seq::empty()), 0));
}

} // verus!
