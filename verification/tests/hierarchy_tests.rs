use rustix_runtime::hierarchy::{
    descendant_search, duplicate_name, name_matches, next_name_number, pasted_name, search_results, starts_with, text_contains, parent_candidates, try_hierarchy_rows, PARENT_SEARCH_DEPTH,
    can_drop_onto, children_of, hierarchy_roots, hierarchy_rows, is_descendant, parent_positions, resolve_parent_positions,
    EntityNode,
};

fn node(id: u64, parent: Option<u64>) -> EntityNode {
    EntityNode { id, parent }
}

fn sample() -> Vec<EntityNode> {
    vec![node(1, None), node(2, Some(1)), node(3, Some(2)), node(4, None), node(5, Some(99)), node(6, Some(1))]
}

#[test]
fn roots_and_children_keep_entity_order() {
    let nodes = sample();
    assert_eq!(hierarchy_roots(&nodes), vec![1, 4]);
    assert_eq!(children_of(&nodes, 1), vec![2, 6]);
    assert_eq!(children_of(&nodes, 2), vec![3]);
    assert_eq!(children_of(&nodes, 99), vec![5]);
    assert!(children_of(&nodes, 4).is_empty());
}

#[test]
fn descendants_follow_child_links() {
    let nodes = sample();
    assert!(is_descendant(&nodes, 1, 2));
    assert!(is_descendant(&nodes, 1, 3));
    assert!(!is_descendant(&nodes, 3, 1));
    assert!(!is_descendant(&nodes, 1, 4));
    assert!(!is_descendant(&nodes, 1, 1));
    assert!(!is_descendant(&nodes, 4, 5));
}

#[test]
fn drop_rule_of_the_hierarchy_panel() {
    let nodes = sample();
    assert!(can_drop_onto(&nodes, 4, 3));
    assert!(!can_drop_onto(&nodes, 3, 1));
    assert!(!can_drop_onto(&nodes, 2, 2));
    // a parent may be dropped onto its own child: the panel only refuses moves of
    // entities that already lie below the target
    assert!(can_drop_onto(&nodes, 1, 3));
}

#[test]
fn descendant_search_in_a_loop_returns_only_on_a_hit() {
    // 1 and 2 are each other's parent: the search finds what it meets on the
    // way round, and otherwise goes round the loop without end
    let nodes = vec![node(1, Some(2)), node(2, Some(1)), node(3, None)];
    assert!(is_descendant(&nodes, 1, 1));
    assert!(is_descendant(&nodes, 1, 2));
    assert_eq!(descendant_search(&nodes, 1, 3), None);
    assert_eq!(descendant_search(&nodes, 3, 1), Some(false));
    assert_eq!(descendant_search(&nodes, 2, 1), Some(true));
    assert!(!is_descendant(&[], 1, 2));
}

#[test]
fn panel_rows_list_each_root_then_its_children() {
    let nodes = sample();
    assert_eq!(hierarchy_rows(&nodes), vec![(1, 0), (2, 1), (3, 2), (6, 1), (4, 0)]);
    assert!(hierarchy_rows(&[]).is_empty());
}

#[test]
fn panel_rows_leave_out_entities_in_loops() {
    // entities 1 and 2 are each other's parent: no root reaches them
    let nodes = vec![node(1, Some(2)), node(2, Some(1)), node(3, None)];
    assert_eq!(hierarchy_rows(&nodes), vec![(3, 0)]);
    assert_eq!(try_hierarchy_rows(&nodes), Some(vec![(3, 0)]));
}

#[test]
fn panel_rows_of_a_walk_that_would_not_return() {
    // the id 1 stands both for a root and for a child of 2, a child of 1
    let nodes = vec![node(1, None), node(2, Some(1)), node(1, Some(2))];
    assert_eq!(try_hierarchy_rows(&nodes), None);
    assert_eq!(descendant_search(&nodes, 1, 3), None);
}

#[test]
fn saved_parent_positions() {
    let nodes = sample();
    assert_eq!(parent_positions(&nodes), vec![None, Some(0), Some(1), None, None, Some(0)]);
    assert_eq!(
        resolve_parent_positions(&[None, Some(0), Some(1), Some(7), None]),
        vec![None, Some(0), Some(1), None, None]
    );
}

#[test]
fn parent_candidates_leave_out_the_entity_and_its_descendants() {
    // 1 -> 2 -> 3, and 4 on its own.
    let nodes = vec![node(1, None), node(2, Some(1)), node(3, Some(2)), node(4, None)];
    assert_eq!(parent_candidates(&nodes, 2), vec![1, 4]);
    assert_eq!(parent_candidates(&nodes, 1), vec![4]);
    assert_eq!(parent_candidates(&nodes, 3), vec![1, 2, 4]);
    assert_eq!(parent_candidates(&nodes, 4), vec![1, 2, 3]);
}

#[test]
fn parent_candidates_stop_searching_after_the_depth_limit() {
    // A chain 0 <- 1 <- ... <- 70: entity 70 is more than the searched depth
    // below entity 0, so it is still offered as a parent of entity 0.
    let mut nodes = vec![node(0, None)];
    for i in 1..=70u64 {
        nodes.push(node(i, Some(i - 1)));
    }
    let c = parent_candidates(&nodes, 0);
    assert_eq!(c.len(), 70 - PARENT_SEARCH_DEPTH as usize);
    assert!(!c.contains(&64));
    assert!(c.contains(&65));
    assert!(c.contains(&70));
}

#[test]
fn next_name_number_counts_names_starting_with_the_prefix() {
    assert_eq!(next_name_number(&[], "Empty"), 1);
    assert_eq!(next_name_number(&["Empty 1", "Cube", "Empty"], "Empty"), 3);
    assert_eq!(next_name_number(&["empty", "Emp", "Camera", "EmptyX"], "Empty"), 2);
    assert_eq!(next_name_number(&["Cube 1", "Cube 2", "Sphere 1", "cube"], "Cube"), 3);
    assert_eq!(next_name_number(&["Cube 1"], ""), 2);
    assert!(starts_with("Cube 1", "Cube"));
    assert!(!starts_with("Cub", "Cube"));
}

#[test]
fn pasted_and_duplicated_names() {
    assert_eq!(pasted_name("Cube 1"), "Cube 1 (Pasted)");
    assert_eq!(duplicate_name("Cube 1"), "Cube 1 Copy");
    assert_eq!(duplicate_name(""), " Copy");
}

#[test]
fn search_ignores_case_and_lists_matches_in_order() {
    assert!(name_matches("Main Camera", "cAMERA"));
    assert!(name_matches("ÄPFEL", "äpf"));
    assert!(!name_matches("Cube", "cubes"));
    assert!(name_matches("Cube", ""));
    let names = ["Cube 1", "Sphere", "big cube", "Light"];
    assert_eq!(search_results(&names, "CUBE"), Some(vec![0, 2]));
    assert_eq!(search_results(&names, "zzz"), Some(vec![]));
    assert_eq!(search_results(&names, ""), None);
}

#[test]
fn text_contains_finds_runs_of_characters() {
    assert!(text_contains("big cube", "cube"));
    assert!(text_contains("cube", ""));
    assert!(text_contains("", ""));
    assert!(!text_contains("Cube", "cube"));
    assert!(!text_contains("cu", "cube"));
    assert!(text_contains("añob", "ño"));
}
