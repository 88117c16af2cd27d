use vimlite::trie::{GetResult, Trie};

#[test]
fn it_works() {
    let mut x = Trie::new();
    x.insert(vec!['b'], 2);
    x.insert(vec!['a', 'b'], 1);
    let sub = x.get(&['a']);
    assert!(matches!(sub, Some(GetResult::Subtrie(..))));
    let res = x.get(&['a', 'b']);
    assert!(matches!(res, Some(GetResult::Value(1))));
    let res = x.get(&['b', 'a']);
    assert!(res.is_none());
    let res = x.get(&['c']);
    assert!(res.is_none());
    let res = x.get(&['b']);
    assert!(matches!(res, Some(GetResult::Value(2))));
}

#[test]
fn similar_mappings() {
    let mut x = Trie::default();
    x.insert(vec!['y', 'i', 'w'], 1);
    x.insert(vec!['y', 'i', 'W'], 2);
    let res = x.get(&['y', 'i', 'w']);
    assert!(matches!(res, Some(GetResult::Value(1))));

    let res = x.get(&['y', 'i', 'W']);
    assert!(matches!(res, Some(GetResult::Value(2))));
}

#[test]
fn replace() {
    let mut x = Trie::default();
    x.insert("foo".chars().collect(), 1);
    assert_eq!(x.insert("foo".chars().collect(), 2), Some(1));
}

#[test]
fn can_insert_follows_the_prefix_rule() {
    let mut x: Trie<char, i32> = Trie::new();
    assert!(!x.can_insert(&[]));
    assert!(x.can_insert(&['a', 'b']));
    x.insert(vec!['a', 'b'], 1);
    // a proper prefix of a stored key leads further: it cannot hold a value
    assert!(!x.can_insert(&['a']));
    // a key below a stored value cannot be stored
    assert!(!x.can_insert(&['a', 'b', 'c']));
    // the stored key itself can be replaced, a sibling can be added
    assert!(x.can_insert(&['a', 'b']));
    assert!(x.can_insert(&['a', 'c']));
}

#[test]
fn other_keys_keep_their_values() {
    let mut x = Trie::new();
    x.insert(vec!['x'], 10);
    x.insert(vec!['y', 'z'], 20);
    assert_eq!(x.insert(vec!['y', 'w'], 30), None);
    assert!(matches!(x.get(&['x']), Some(GetResult::Value(10))));
    assert!(matches!(x.get(&['y', 'z']), Some(GetResult::Value(20))));
    assert!(matches!(x.get(&['y', 'w']), Some(GetResult::Value(30))));
    assert!(matches!(x.get(&[]), Some(GetResult::Subtrie(..))));
}
