use thanatology::tree::{normalize, FileRecord, FsNode, IngestionRecord};

fn file(inode: u64, path: &str) -> FileRecord {
    let name = path.rsplit('/').next().unwrap_or("").to_string();
    FileRecord {
        inode_number: inode,
        absolute_path: path.to_string(),
        filename: name,
        parent_directory: String::new(),
        file_type: "file".to_string(),
        size_bytes: inode * 10,
        owner_uid: 1000,
        group_gid: 1000,
        permissions_mode: 0o644,
        hard_link_count: 1,
        access_time: "2024-01-01T00:00:00Z".to_string(),
        modification_time: "2024-01-01T00:00:00Z".to_string(),
        change_time: "2024-01-01T00:00:00Z".to_string(),
        creation_time: "2024-01-01T00:00:00Z".to_string(),
        extended_attributes: "{}".to_string(),
        symlink_target: None,
        mount_point: "/".to_string(),
        filesystem_type: "ext4".to_string(),
    }
}

fn leaf(inode: u64, path: &str) -> FsNode {
    FsNode { file: file(inode, path), children: Vec::new() }
}

fn inodes(rows: &[IngestionRecord]) -> Vec<u64> {
    rows.iter().map(|r| r.file.inode_number).collect()
}

#[test]
fn single_node_gives_one_row() {
    let rows = normalize(leaf(2, "/"), 7, 1);
    assert_eq!(rows.len(), 1);
    assert_eq!(rows[0], IngestionRecord { evidence_id: 7, partition_id: 1, file: file(2, "/") });
}

#[test]
fn rows_come_in_pre_order() {
    // 2 ─┬─ 11 ─── 13
    //    ├─ 12 ─┬─ 14
    //    │      └─ 15
    //    └─ 16
    let a = FsNode { file: file(11, "/a"), children: vec![leaf(13, "/a/x")] };
    let b = FsNode { file: file(12, "/b"), children: vec![leaf(14, "/b/y"), leaf(15, "/b/z")] };
    let root = FsNode { file: file(2, "/"), children: vec![a, b, leaf(16, "/c")] };
    let rows = normalize(root, 3, 42);
    assert_eq!(inodes(&rows), vec![2, 11, 13, 12, 14, 15, 16]);
    assert!(rows.iter().all(|r| r.evidence_id == 3 && r.partition_id == 42));
    assert_eq!(rows[3].file, file(12, "/b"));
}

fn build(inode: &mut u64, depth: u32, parents: &mut Vec<(u64, Option<u64>)>, parent: Option<u64>) -> FsNode {
    let me = *inode;
    *inode += 1;
    parents.push((me, parent));
    let mut children = Vec::new();
    if depth > 0 {
        for _ in 0..3 {
            children.push(build(inode, depth - 1, parents, Some(me)));
        }
    }
    FsNode { file: file(me, "/n"), children }
}

#[test]
fn every_node_once_with_parent_first() {
    // A full ternary tree of depth 4: 1 + 3 + 9 + 27 = 40 nodes.
    let mut next = 1u64;
    let mut parents = Vec::new();
    let root = build(&mut next, 3, &mut parents, None);
    let rows = normalize(root, 1, 1);
    assert_eq!(rows.len(), 40);
    let order = inodes(&rows);
    let mut sorted = order.clone();
    sorted.sort();
    assert_eq!(sorted, (1..=40).collect::<Vec<u64>>());
    let position = |i: u64| order.iter().position(|&x| x == i).unwrap();
    for (child, parent) in parents {
        if let Some(p) = parent {
            assert!(position(p) < position(child));
        }
    }
}

#[test]
fn duplicate_paths_are_kept() {
    let root = FsNode { file: file(2, "/"), children: vec![leaf(5, "/same"), leaf(5, "/same")] };
    let rows = normalize(root, 1, 1);
    assert_eq!(inodes(&rows), vec![2, 5, 5]);
}

#[test]
fn very_deep_tree_is_flattened() {
    let depth: u64 = 200_000;
    let mut node = leaf(depth, "/deep");
    for i in (1..depth).rev() {
        node = FsNode { file: file(i, "/deep"), children: vec![node] };
    }
    let rows = normalize(node, 1, 1);
    assert_eq!(rows.len() as u64, depth);
    assert_eq!(rows[0].file.inode_number, 1);
    assert_eq!(rows[(depth - 1) as usize].file.inode_number, depth);
}
