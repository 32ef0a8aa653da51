use tcgscan::ranking::{best_match, card_index, group_by_image, image_matches};

#[test]
fn best_match_of_nothing_is_none() {
    assert_eq!(best_match(&vec![]), None);
}

#[test]
fn best_match_picks_the_highest_score() {
    assert_eq!(best_match(&vec![(3, 10), (7, 50), (1, 20)]), Some((7, 50)));
    assert_eq!(best_match(&vec![(4, 0)]), Some((4, 0)));
}

#[test]
fn best_match_uses_the_last_score_of_an_image() {
    assert_eq!(best_match(&vec![(1, 100), (2, 50), (1, 10)]), Some((2, 50)));
}

#[test]
fn image_matches_lists_hits_row_by_row() {
    let table = vec![vec![5, 2, 5], vec![], vec![2, 5]];
    assert_eq!(image_matches(&table, 5), vec![(0, 0), (0, 2), (2, 1)]);
    assert_eq!(image_matches(&table, 2), vec![(0, 1), (2, 0)]);
    assert!(image_matches(&table, 9).is_empty());
}

#[test]
fn group_by_image_forms_one_group_per_image() {
    let table = vec![vec![5, 2, 5], vec![], vec![2, 5, 8]];
    let groups = group_by_image(&table);
    assert_eq!(
        groups,
        vec![(5, vec![(0, 0), (0, 2), (2, 1)]), (2, vec![(0, 1), (2, 0)]), (8, vec![(2, 2)])]
    );
    for (img, positions) in &groups {
        assert_eq!(&image_matches(&table, *img), positions);
    }
    assert!(group_by_image(&vec![vec![], vec![]]).is_empty());
}

#[test]
fn card_index_only_names_loaded_cards() {
    assert_eq!(card_index(0, 3), Some(0));
    assert_eq!(card_index(2, 3), Some(2));
    assert_eq!(card_index(3, 3), None);
    assert_eq!(card_index(-1, 3), None);
}
