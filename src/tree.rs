use vstd::prelude::*;

verus! {

/// The metadata of one file, directory or link found in a filesystem, in the
/// shape in which it is stored.
#[derive(Clone, Debug, PartialEq, Eq)]
pub struct FileRecord {
    pub inode_number: u64,
    pub absolute_path: String,
    pub filename: String,
    pub parent_directory: String,
    pub file_type: String,
    pub size_bytes: u64,
    pub owner_uid: u64,
    pub group_gid: u64,
    pub permissions_mode: u64,
    pub hard_link_count: u64,
    pub access_time: String,
    pub modification_time: String,
    pub change_time: String,
    pub creation_time: String,
    /// The extended attributes, already serialized.
    pub extended_attributes: String,
    pub symlink_target: Option<String>,
    pub mount_point: String,
    pub filesystem_type: String,
}

/// A node of a walked filesystem tree. Each node owns its children.
#[derive(Debug)]
pub struct FsNode {
    pub file: FileRecord,
    pub children: Vec<FsNode>,
}

/// The records of the tree under `n`, parent first, then each child's
/// subtree from the first child to the last.
pub open spec fn preorder(n: FsNode) -> Seq<FileRecord>
    decreases n,
{
    seq![n.file] + preorder_all(n.children@)
}

/// The pre-order records of the trees of `s`, one after another.
pub open spec fn preorder_all(s: Seq<FsNode>) -> Seq<FileRecord>
    decreases s,
{
    if s.len() == 0 {
        Seq::empty()
    } else {
        preorder_all(s.drop_last()) + preorder(s.last())
    }
}

/// The pre-order records of the trees of `s`, the last tree of `s` first.
/// This is what remains to be emitted while `s` serves as a stack whose top
/// is its last element.
pub open spec fn preorder_stack(s: Seq<FsNode>) -> Seq<FileRecord>
    decreases s,
{
    if s.len() == 0 {
        Seq::empty()
    } else {
        preorder(s.last()) + preorder_stack(s.drop_last())
    }
}

/// The number of nodes in the tree under `n`.
pub open spec fn node_count(n: FsNode) -> nat
    decreases n,
{
    1 + node_count_all(n.children@)
}

/// The number of nodes in the trees of `s`.
pub open spec fn node_count_all(s: Seq<FsNode>) -> nat
    decreases s,
{
    if s.len() == 0 {
        0
    } else {
        node_count_all(s.drop_last()) + node_count(s.last())
    }
}

proof fn lemma_preorder_len(n: FsNode)
    ensures
        preorder(n).len() == node_count(n),
    decreases n,
{
    lemma_preorder_all_len(n.children@);
}

proof fn lemma_preorder_all_len(s: Seq<FsNode>)
    ensures
        preorder_all(s).len() == node_count_all(s),
    decreases s,
{
    if s.len() > 0 {
        lemma_preorder_all_len(s.drop_last());
        lemma_preorder_len(s.last());
    }
}

/// The records of the first `j` trees of `s` are a prefix of the records of
/// all of them.
proof fn lemma_preorder_all_prefix(s: Seq<FsNode>, j: int)
    requires
        0 <= j <= s.len(),
    ensures
        preorder_all(s.take(j)).len() <= preorder_all(s).len(),
        preorder_all(s).take(preorder_all(s.take(j)).len() as int) == preorder_all(s.take(j)),
    decreases s.len(),
{
    if j == s.len() {
        assert(s.take(j) =~= s);
    } else {
        let t = s.drop_last();
        assert(s.take(j) =~= t.take(j));
        lemma_preorder_all_prefix(t, j);
        assert(preorder_all(s) == preorder_all(t) + preorder(s.last()));
        assert(preorder_all(s).take(preorder_all(s.take(j)).len() as int) =~= preorder_all(
            t,
        ).take(preorder_all(t.take(j)).len() as int));
    }
}

/// Flattening a tree yields one record per node; the record of a node comes
/// first, and the records of the subtree of each of its children follow it
/// as one block, the first child's block first.
pub proof fn flattening_complete(root: FsNode)
    ensures
        preorder(root).len() == node_count(root),
        preorder(root)[0] == root.file,
        forall|i: int|
            #![trigger root.children@[i]]
            0 <= i < root.children@.len() ==> {
                let start = 1 + node_count_all(root.children@.take(i)) as int;
                &&& start + node_count(root.children@[i]) <= preorder(root).len()
                &&& preorder(root).subrange(start, start + node_count(root.children@[i]))
                    == preorder(root.children@[i])
            },
{
    lemma_preorder_len(root);
    let s = root.children@;
    assert forall|i: int|
        #![trigger root.children@[i]]
        0 <= i < s.len() implies {
        let start = 1 + node_count_all(s.take(i)) as int;
        &&& start + node_count(s[i]) <= preorder(root).len()
        &&& preorder(root).subrange(start, start + node_count(s[i])) == preorder(s[i])
    } by {
        let before = s.take(i);
        let upto = s.take(i + 1);
        assert(upto.drop_last() =~= before);
        assert(upto.last() == s[i]);
        assert(preorder_all(upto) == preorder_all(before) + preorder(s[i]));
        lemma_preorder_all_prefix(s, i + 1);
        lemma_preorder_all_len(before);
        lemma_preorder_len(s[i]);
        let a = preorder_all(before).len() as int;
        let b = preorder(s[i]).len() as int;
        let whole = preorder_all(s);
        assert(preorder_all(upto).len() == a + b);
        assert(whole.take(a + b) == preorder_all(upto));
        assert forall|k: int| 0 <= k < b implies whole.subrange(a, a + b)[k] == preorder(s[i])[k] by {
            assert(whole.take(a + b)[a + k] == whole[a + k]);
            assert(preorder_all(upto)[a + k] == preorder(s[i])[k]);
        }
        assert(whole.subrange(a, a + b) =~= preorder(s[i]));
        assert(preorder(root).subrange(1 + a, 1 + a + b) =~= preorder_all(s).subrange(a, a + b));
    }
}

/// One stored row: a file's metadata with the evidence and partition it
/// was found in.
#[derive(Clone, Debug, PartialEq, Eq)]
pub struct IngestionRecord {
    pub evidence_id: i64,
    pub partition_id: i64,
    pub file: FileRecord,
}

/// The row of `file` in the given evidence and partition.
pub open spec fn record_of(evidence_id: i64, partition_id: i64, file: FileRecord) -> IngestionRecord {
    IngestionRecord { evidence_id, partition_id, file }
}

/// The rows of `files`, in order, each tagged with the same evidence and
/// partition.
pub open spec fn records_of(evidence_id: i64, partition_id: i64, files: Seq<FileRecord>) -> Seq<IngestionRecord> {
    files.map_values(|f: FileRecord| record_of(evidence_id, partition_id, f))
}

/// Flattens the tree under `root` into one row per node, in depth-first
/// pre-order. The walk keeps its pending subtrees on a heap-allocated stack,
/// so the depth of the tree does not bound the call stack.
pub fn normalize(root: FsNode, evidence_id: i64, partition_id: i64) -> (r: Vec<IngestionRecord>)
    ensures
        r@ == records_of(evidence_id, partition_id, preorder(root)),
        r@.len() == node_count(root),
{
    let ghost target = preorder(root);
    let ghost mut done: Seq<FileRecord> = Seq::empty();
    let mut out: Vec<IngestionRecord> = Vec::new();
    let mut stack: Vec<FsNode> = Vec::new();
    stack.push(root);
    proof {
        assert(stack@.drop_last() =~= Seq::<FsNode>::empty());
        assert(stack@.last() == root);
        assert(preorder_stack(Seq::<FsNode>::empty()) == Seq::<FileRecord>::empty());
        assert(preorder_stack(stack@) =~= target);
    }
    while stack.len() > 0
        invariant
            done + preorder_stack(stack@) == target,
            out@.len() == done.len(),
            forall|i: int| 0 <= i < done.len() ==> out@[i] == record_of(evidence_id, partition_id, #[trigger] done[i]),
        decreases preorder_stack(stack@).len(),
    {
        let ghost before = stack@;
        let node = stack.pop().unwrap();
        let ghost below = stack@;
        assert(before.drop_last() == below);
        assert(preorder_stack(before) == preorder(node) + preorder_stack(below));
        let FsNode { file, children } = node;
        let ghost kids = children@;
        let ghost emitted = file;
        out.push(IngestionRecord { evidence_id, partition_id, file });
        proof {
            done = done.push(emitted);
        }
        let mut rest = children;
        while rest.len() > 0
            invariant
                preorder_all(rest@) + preorder_stack(stack@) == preorder_all(kids) + preorder_stack(below),
            decreases rest.len(),
        {
            let ghost rest_before = rest@;
            let ghost stack_before = stack@;
            let child = rest.pop().unwrap();
            stack.push(child);
            proof {
                assert(rest_before.drop_last() == rest@);
                assert(stack@.drop_last() == stack_before);
                assert(preorder_all(rest_before) == preorder_all(rest@) + preorder(child));
                assert(preorder_stack(stack@) == preorder(child) + preorder_stack(stack_before));
                assert(preorder_all(rest@) + preorder_stack(stack@) =~= preorder_all(rest_before)
                    + preorder_stack(stack_before));
            }
        }
        proof {
            assert(rest@ =~= Seq::<FsNode>::empty());
            assert(preorder(node) == seq![emitted] + preorder_all(kids));
            assert(done + preorder_stack(stack@) =~= target);
        }
    }
    proof {
        lemma_preorder_len(root);
        assert(done =~= target);
        assert(out@ =~= records_of(evidence_id, partition_id, target));
    }
    out
}

} // verus!
