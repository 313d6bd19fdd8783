use texted::Paginator;

#[test]
fn paginator_test_happy_case() {
    let items = vec![1, 2, 3, 4, 5, 6, 7, 8, 9, 10, 11, 12, 13];
    let paginator = Paginator::from(&items, 3);
    assert_eq!(paginator.page_count(), 5);
    assert_eq!(paginator.get_page(1), Ok(&[1, 2, 3].as_slice()).copied());
    assert_eq!(paginator.get_page(2), Ok(&[4, 5, 6].as_slice()).copied());
    assert_eq!(paginator.get_page(3), Ok(&[7, 8, 9].as_slice()).copied());
    assert_eq!(paginator.get_page(4), Ok(&[10, 11, 12].as_slice()).copied());
    assert_eq!(paginator.get_page(5), Ok(&[13].as_slice()).copied());

    assert_eq!(paginator.get_page(0), Err("Page has to be greater than 0".to_string()));
    assert_eq!(paginator.get_page(6), Err("Page has to be less than page_count (5)".to_string()));
}

#[test]
fn test_empty() {
    let items: Vec<u32> = vec![];
    let paginator = Paginator::from(&items, 3);
    assert_eq!(paginator.page_count(), 0);
    assert_eq!(paginator.get_page(0), Err("Page has to be greater than 0".to_string()));
    assert_eq!(paginator.get_page(1), Err("Page has to be less than page_count (0)".to_string()));
}

#[test]
fn pages_rebuild_the_list_in_order() {
    let items: Vec<u32> = (1..=10).collect();
    let paginator = Paginator::from(&items, 4);
    assert_eq!(paginator.page_count(), 3);
    let mut joined: Vec<u32> = Vec::new();
    for n in 1..=paginator.page_count() {
        joined.extend_from_slice(paginator.get_page(n).unwrap());
    }
    assert_eq!(joined, items);
}

#[test]
fn empty_list_rejects_every_page() {
    let items: Vec<u32> = vec![];
    let paginator = Paginator::from(&items, 5);
    assert_eq!(paginator.page_count(), 0);
    for n in 0..20 {
        assert!(paginator.get_page(n).is_err());
    }
}

#[test]
fn exact_multiple_has_full_last_page() {
    let items: Vec<u32> = (1..=6).collect();
    let paginator = Paginator::from(&items, 3);
    assert_eq!(paginator.page_count(), 2);
    assert_eq!(paginator.get_page(2), Ok([4, 5, 6].as_slice()));
    assert_eq!(paginator.get_page(3), Err("Page has to be less than page_count (2)".to_string()));
}

#[test]
fn page_size_one_gives_one_item_per_page() {
    let items: Vec<u32> = vec![7, 8, 9];
    let paginator = Paginator::from(&items, 1);
    assert_eq!(paginator.page_count(), 3);
    assert_eq!(paginator.get_page(3), Ok([9].as_slice()));
}
