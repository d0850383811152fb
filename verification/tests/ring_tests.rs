use anonymous_conference::ring::{insert_ascending, key_order, position, sort_keys, KeyOrder};

fn key(first: u8, last: u8) -> [u8; 32] {
    let mut key = [0u8; 32];
    key[0] = first;
    key[31] = last;
    key
}

#[test]
fn keys_are_ordered_lexicographically() {
    assert_eq!(key_order(&key(1, 0), &key(1, 0)), KeyOrder::Equal);
    assert_eq!(key_order(&key(1, 0), &key(2, 0)), KeyOrder::Less);
    assert_eq!(key_order(&key(2, 0), &key(1, 0)), KeyOrder::Greater);
    assert_eq!(key_order(&key(1, 0), &key(1, 1)), KeyOrder::Less);
    assert_eq!(key_order(&key(1, 9), &key(2, 0)), KeyOrder::Less);
    assert_eq!(key_order(&key(0, 255), &key(1, 0)), KeyOrder::Less);
    assert_eq!(key_order(&[0u8; 32], &[255u8; 32]), KeyOrder::Less);
    assert_eq!(key_order(&key(128, 0), &key(127, 255)), KeyOrder::Greater);
}

#[test]
fn key_order_is_that_of_the_byte_strings() {
    let keys = [key(0, 0), key(0, 1), key(1, 0), key(1, 255), key(200, 3), key(255, 255)];
    for a in keys {
        for b in keys {
            let expected = match a.cmp(&b) {
                std::cmp::Ordering::Less => KeyOrder::Less,
                std::cmp::Ordering::Equal => KeyOrder::Equal,
                std::cmp::Ordering::Greater => KeyOrder::Greater,
            };
            assert_eq!(key_order(&a, &b), expected);
        }
    }
}

#[test]
fn position_is_the_first_index_of_the_key() {
    let keys = vec![key(3, 0), key(1, 0), key(2, 0), key(1, 0)];
    assert_eq!(position(&keys, &key(3, 0)), Some(0));
    assert_eq!(position(&keys, &key(1, 0)), Some(1));
    assert_eq!(position(&keys, &key(2, 0)), Some(2));
    assert_eq!(position(&keys, &key(4, 0)), None);
    assert_eq!(position(&vec![], &key(1, 0)), None);
}

#[test]
fn keys_are_inserted_at_their_place_once() {
    let mut keys: Vec<[u8; 32]> = Vec::new();
    assert!(insert_ascending(&mut keys, key(5, 0)));
    assert!(insert_ascending(&mut keys, key(1, 0)));
    assert!(insert_ascending(&mut keys, key(9, 0)));
    assert!(insert_ascending(&mut keys, key(5, 1)));
    assert_eq!(keys, vec![key(1, 0), key(5, 0), key(5, 1), key(9, 0)]);
    assert!(!insert_ascending(&mut keys, key(5, 0)));
    assert!(!insert_ascending(&mut keys, key(1, 0)));
    assert!(!insert_ascending(&mut keys, key(9, 0)));
    assert_eq!(keys, vec![key(1, 0), key(5, 0), key(5, 1), key(9, 0)]);
}

#[test]
fn ring_is_the_ascending_sequence_of_the_keys() {
    let keys = vec![key(7, 0), key(2, 9), key(2, 1), key(200, 0), key(0, 0)];
    let ring = sort_keys(&keys);
    assert_eq!(ring, vec![key(0, 0), key(2, 1), key(2, 9), key(7, 0), key(200, 0)]);
    let mut expected = keys.clone();
    expected.sort_unstable();
    assert_eq!(ring, expected);
    assert_eq!(sort_keys(&vec![]), Vec::<[u8; 32]>::new());
    assert_eq!(sort_keys(&vec![key(1, 1)]), vec![key(1, 1)]);
}

#[test]
fn ring_does_not_depend_on_the_order_keys_came_in() {
    let first = vec![key(7, 0), key(2, 9), key(2, 1), key(200, 0)];
    let second = vec![key(200, 0), key(2, 1), key(7, 0), key(2, 9)];
    let third = vec![key(2, 1), key(2, 9), key(7, 0), key(200, 0)];
    assert_eq!(sort_keys(&first), sort_keys(&second));
    assert_eq!(sort_keys(&first), sort_keys(&third));
}

#[test]
fn ring_holds_a_key_given_twice_once() {
    let keys = vec![key(7, 0), key(2, 9), key(7, 0), key(2, 9), key(7, 0)];
    assert_eq!(sort_keys(&keys), vec![key(2, 9), key(7, 0)]);
}
