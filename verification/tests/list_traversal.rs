use nvdsmeta::nvlist::link_nodes;
use nvdsmeta::nvlist::GList;
use nvdsmeta::nvlist::GListIter;
use nvdsmeta::nvlist::GListMem;
use nvdsmeta::nvlist::GListNode;

fn drain(head: Option<usize>, mem: &mut GListMem) -> Vec<usize> {
    let mut it = GListIter::from_glib_full(head);
    it.collect_handles(mem)
}

#[test]
fn traversal_yields_each_node_in_order() {
    let data = vec![10usize, 20, 30];
    let mut mem = link_nodes(&data);
    let handles = drain(Some(0), &mut mem);
    assert_eq!(handles, vec![10, 20, 30]);
}

#[test]
fn null_head_yields_nothing() {
    let data = vec![10usize, 20, 30];
    let mut mem = link_nodes(&data);
    let handles = drain(None, &mut mem);
    assert!(handles.is_empty());
}

#[test]
fn empty_memory_yields_nothing() {
    let mut mem = GListMem { nodes: Vec::new() };
    let handles = drain(None, &mut mem);
    assert!(handles.is_empty());
}

#[test]
fn traversal_follows_links_not_storage_order() {
    // Storage order 0, 1, 2 but links run 2 -> 0 -> 1.
    let nodes = vec![
        GListNode { data: 20, next: Some(1), prev: Some(2) },
        GListNode { data: 30, next: None, prev: Some(0) },
        GListNode { data: 10, next: Some(0), prev: None },
    ];
    let mut mem = GListMem { nodes };
    let handles = drain(Some(2), &mut mem);
    assert_eq!(handles, vec![10, 20, 30]);
}

#[test]
fn two_traversals_same_sequence() {
    let data = vec![4usize, 5, 6, 7];
    let mut mem = link_nodes(&data);
    let first = drain(Some(0), &mut mem);
    let second = drain(Some(0), &mut mem);
    assert_eq!(first, second);
    assert_eq!(first, vec![4, 5, 6, 7]);
}

#[test]
fn step_clears_prev_of_advanced_to_node() {
    let data = vec![1usize, 2, 3];
    let mut mem = link_nodes(&data);
    assert_eq!(mem.nodes[1].prev, Some(0));
    let mut it = GListIter::from_glib_full(Some(0));
    let first = it.next(&mut mem);
    assert_eq!(first, Some(1));
    // The defensive clear hit node 1's backlink; data and forward links are
    // untouched.
    assert_eq!(mem.nodes[1].prev, None);
    assert_eq!(mem.nodes[1].next, Some(2));
    assert_eq!(mem.nodes[1].data, 2);
    assert_eq!(mem.nodes[2].prev, Some(1));
}

#[test]
fn node_cursor_yields_indices() {
    let data = vec![40usize, 50];
    let mut mem = link_nodes(&data);
    let mut nodes_cursor = GList::from_glib_full(Some(0));
    assert_eq!(nodes_cursor.next(&mut mem), Some(0));
    assert_eq!(nodes_cursor.next(&mut mem), Some(1));
    assert_eq!(nodes_cursor.next(&mut mem), None);
    assert_eq!(nodes_cursor.next(&mut mem), None);
}

#[test]
fn exhausted_cursor_stays_exhausted() {
    let data = vec![9usize];
    let mut mem = link_nodes(&data);
    let mut it = GListIter::from_glib_full(Some(0));
    assert_eq!(it.next(&mut mem), Some(9));
    assert_eq!(it.next(&mut mem), None);
    assert_eq!(it.next(&mut mem), None);
}
