use context_court::lists::{
    clone_did, clone_dids, contains, contains_byte, even_byte_sum, index_of, remove_first,
};
use context_court::sorted::{bytes_less, insert_sorted};
use context_court::table::{Key, Table};

#[test]
fn dictionary_order_of_byte_strings() {
    assert!(bytes_less(&vec![], &vec![0]));
    assert!(!bytes_less(&vec![], &vec![]));
    assert!(!bytes_less(&vec![0], &vec![]));
    assert!(bytes_less(&vec![1, 2], &vec![1, 3]));
    assert!(bytes_less(&vec![1, 2], &vec![1, 2, 0]));
    assert!(!bytes_less(&vec![1, 2, 0], &vec![1, 2]));
    assert!(bytes_less(&vec![1, 255], &vec![2]));
    assert!(!bytes_less(&vec![7], &vec![7]));
}

#[test]
fn sorted_insertion_keeps_order_and_skips_copies() {
    let mut list: Vec<Vec<u8>> = vec![];
    for item in [vec![5u8], vec![1, 9], vec![5], vec![], vec![1], vec![200], vec![1, 9]] {
        insert_sorted(&mut list, item);
    }
    assert_eq!(list, vec![vec![], vec![1], vec![1, 9], vec![5], vec![200]]);
}

#[test]
fn parity_of_a_byte_sum() {
    assert!(even_byte_sum(&[]));
    assert!(!even_byte_sum(&[1]));
    assert!(even_byte_sum(&[255, 1]));
    assert!(!even_byte_sum(&[255, 255, 255]));
    assert!(even_byte_sum(&[2, 4, 6]));
}

#[test]
fn search_in_lists() {
    let list = vec![vec![1u8], vec![2], vec![1], vec![3]];
    assert_eq!(index_of(&list, &vec![1]), Some(0));
    assert_eq!(index_of(&list, &vec![3]), Some(3));
    assert_eq!(index_of(&list, &vec![4]), None);
    assert!(contains(&list, &vec![2]));
    assert!(!contains(&list, &vec![]));
    assert!(contains_byte(&[1, 2, 3], 3));
    assert!(!contains_byte(&[1, 2, 3], 4));
    let mut shorter = clone_dids(&list);
    remove_first(&mut shorter, &vec![1]);
    assert_eq!(shorter, vec![vec![2], vec![1], vec![3]]);
    remove_first(&mut shorter, &vec![9]);
    assert_eq!(shorter.len(), 3);
    assert_eq!(clone_did(&vec![4, 5]), vec![4, 5]);
    assert!(vec![4u8, 5].same(&vec![4, 5]));
    assert!(!vec![4u8, 5].same(&vec![4]));
}

#[test]
fn table_holds_one_value_for_a_key() {
    let mut table: Table<Vec<u8>, u32> = Table::new();
    assert_eq!(table.get(&vec![1]), None);
    table.insert(vec![1], 10);
    table.insert(vec![2], 20);
    table.insert(vec![1], 11);
    assert_eq!(table.get(&vec![1]), Some(&11));
    assert_eq!(table.get(&vec![2]), Some(&20));
    assert!(table.contains_key(&vec![2]));
    assert_eq!(table.remove(&vec![1]), Some(11));
    assert_eq!(table.remove(&vec![1]), None);
    assert!(!table.contains_key(&vec![1]));
    assert_eq!(table.get(&vec![2]), Some(&20));
}
