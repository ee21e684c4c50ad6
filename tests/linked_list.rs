use hym::linear::linked_list::{LinkedList, LinkedListError};

#[test]
fn linked_list_test_push_head() {
    // Test adding elements to the head of the list
    let mut list = LinkedList::new();
    list.push_head(&1); // Add 1 to the head
    assert_eq!(list.len(), 1); // List should contain 1 element
    assert_eq!(list.get(0), Some(1)); // First element should be 1

    list.push_head(&2); // Add 2 to the head
    assert_eq!(list.len(), 2); // List should now contain 2 elements
    assert_eq!(list.get(0), Some(2)); // First element should be 2
    assert_eq!(list.get(1), Some(1)); // Second element should be 1
}

#[test]
fn linked_list_test_push_back() {
    // Test adding elements to the back of the list
    let mut list = LinkedList::new();
    list.push_back(&1); // Add 1 to the back
    assert_eq!(list.len(), 1); // List should contain 1 element
    assert_eq!(list.get(0), Some(1)); // First element should be 1

    list.push_back(&2); // Add 2 to the back
    assert_eq!(list.len(), 2); // List should contain 2 elements
    assert_eq!(list.get(1), Some(2)); // Second element should be 2
}

#[test]
fn linked_list_test_pop_head() {
    // Test removing elements from the head of the list
    let mut list = LinkedList::new();
    assert_eq!(list.pop_head(), Err(LinkedListError::EmptyList)); // Pop on an empty list should return an error

    list.push_head(&1); // Add 1 to the head
    list.push_head(&2); // Add 2 to the head
    assert_eq!(list.pop_head(), Ok(2)); // Pop should return 2 (head element)
    assert_eq!(list.len(), 1); // List should now contain 1 element
    assert_eq!(list.pop_head(), Ok(1)); // Pop should return 1
    assert_eq!(list.len(), 0); // List should be empty
    assert_eq!(list.pop_head(), Err(LinkedListError::EmptyList)); // Pop on an empty list should return an error
}

#[test]
fn linked_list_test_pop_back() {
    // Test removing elements from the back of the list
    let mut list = LinkedList::new();
    assert_eq!(list.pop_back(), Err(LinkedListError::EmptyList)); // Pop on an empty list should return an error

    list.push_back(&1); // Add 1 to the back
    list.push_back(&2); // Add 2 to the back
    list.push_back(&3); // Add 3 to the back
    assert_eq!(list.pop_back(), Ok(3)); // Pop should return 3 (last element)
    assert_eq!(list.len(), 2); // List should now contain 2 elements
    assert_eq!(list.pop_back(), Ok(2)); // Pop should return 2
    assert_eq!(list.len(), 1); // List should now contain 1 element
    assert_eq!(list.pop_back(), Ok(1)); // Pop should return 1
    assert_eq!(list.len(), 0); // List should be empty
    assert_eq!(list.pop_back(), Err(LinkedListError::EmptyList)); // Pop on an empty list should return an error
}

#[test]
fn linked_list_test_insert() {
    // Test inserting elements at a specific position
    let mut list = LinkedList::new();
    assert_eq!(list.insert(&1, 1), Err(LinkedListError::InsertOutOfRange)); // Inserting out of range

    list.push_back(&1); // Add 1 to the back
    list.push_back(&3); // Add 3 to the back
    assert_eq!(list.insert(&2, 1), Ok(())); // Insert 2 at position 1
    assert_eq!(list.len(), 3); // List should contain 3 elements
    assert_eq!(list.get(1), Some(2)); // Element at position 1 should be 2

    assert_eq!(list.insert(&4, 3), Ok(())); // Insert 4 at position 3
    assert_eq!(list.len(), 4); // List should contain 4 elements
    assert_eq!(list.get(3), Some(4)); // Element at position 3 should be 4

    assert_eq!(list.insert(&0, 0), Ok(())); // Insert 0 at position 0
    assert_eq!(list.len(), 5); // List should contain 5 elements
    assert_eq!(list.get(0), Some(0)); // Element at position 0 should be 0

    // Attempt to insert out of range
    assert_eq!(list.insert(&5, 6), Err(LinkedListError::InsertOutOfRange)); // Inserting out of range should return an error
}

#[test]
fn linked_list_test_remove() {
    // Test removing elements at a specific position
    let mut list = LinkedList::new();
    assert_eq!(list.remove(0), Err(LinkedListError::RemoveFromEmptyList)); // Remove from an empty list should return an error

    list.push_back(&1); // Add 1 to the back
    list.push_back(&2); // Add 2 to the back
    list.push_back(&3); // Add 3 to the back
    assert_eq!(list.remove(1), Ok(2)); // Remove element at position 1 (value 2)
    assert_eq!(list.len(), 2); // List should now contain 2 elements
    assert_eq!(list.get(1), Some(3)); // Element at position 1 should be 3

    assert_eq!(list.remove(0), Ok(1)); // Remove element at position 0 (value 1)
    assert_eq!(list.len(), 1); // List should now contain 1 element
    assert_eq!(list.get(0), Some(3)); // Element at position 0 should be 3

    assert_eq!(list.remove(0), Ok(3)); // Remove last element (value 3)
    assert_eq!(list.len(), 0); // List should be empty
    assert_eq!(list.remove(0), Err(LinkedListError::RemoveFromEmptyList)); // Remove from an empty list should return an error
}

#[test]
fn linked_list_test_val2ix() {
    // Test finding indices of a specific value
    let mut list = LinkedList::new();
    assert_eq!(list.val2ix(&1), vec![]); // No elements in the list

    list.push_back(&1); // Add 1 to the back
    list.push_back(&2); // Add 2 to the back
    list.push_back(&3); // Add 3 to the back
    list.push_back(&2); // Add another 2 to the back

    assert_eq!(list.val2ix(&1), vec![0]); // 1 is at index 0
    assert_eq!(list.val2ix(&2), vec![1, 3]); // 2 is at indices 1 and 3
    assert_eq!(list.val2ix(&3), vec![2]); // 3 is at index 2
    assert_eq!(list.val2ix(&4), vec![]); // No 4 in the list
}

#[test]
fn linked_list_test_ix2val() {
    // Test accessing value by index
    let mut list = LinkedList::new();
    list.push_back(&10); // Add 10 to the back
    list.push_back(&20); // Add 20 to the back
    list.push_back(&30); // Add 30 to the back

    assert_eq!(list.ix2val(0), Some(10)); // Element at index 0 should be 10
    assert_eq!(list.ix2val(1), Some(20)); // Element at index 1 should be 20
    assert_eq!(list.ix2val(2), Some(30)); // Element at index 2 should be 30
    assert_eq!(list.ix2val(3), None); // No element at index 3
}

#[test]
fn linked_list_test_get() {
    // Test retrieving element at a specific index
    let mut list = LinkedList::new();
    list.push_back(&100); // Add 100 to the back
    list.push_back(&200); // Add 200 to the back

    assert_eq!(list.get(0), Some(100)); // Element at index 0 should be 100
    assert_eq!(list.get(1), Some(200)); // Element at index 1 should be 200
    assert_eq!(list.get(2), None); // No element at index 2
}

#[test]
fn linked_list_test_len() {
    // Test the length of the list
    let mut list: LinkedList<i32> = LinkedList::new();
    assert_eq!(list.len(), 0); // Empty list

    list.push_head(&1); // Add 1 to the head
    assert_eq!(list.len(), 1); // List should contain 1 element

    list.push_back(&2); // Add 2 to the back
    assert_eq!(list.len(), 2); // List should contain 2 elements

    list.pop_head().unwrap(); // Remove from head
    assert_eq!(list.len(), 1); // List should contain 1 element

    list.pop_back().unwrap(); // Remove from back
    assert_eq!(list.len(), 0); // List should be empty
}

#[test]
fn linked_list_test_display() {
    // Test the display of the list
    let mut list = LinkedList::new();
    assert_eq!(list.to_display_string(), "()"); // Empty list

    list.push_back(&1); // Add 1 to the back
    assert_eq!(list.to_display_string(), "(1)");

    list.push_back(&2); // Add 2 to the back
    list.push_back(&3); // Add 3 to the back
    assert_eq!(list.to_display_string(), "(1 -> 2 -> 3)");

    list.pop_head().unwrap(); // Remove from head
    assert_eq!(list.to_display_string(), "(2 -> 3)");

    list.pop_back().unwrap(); // Remove from back
    assert_eq!(list.to_display_string(), "(2)");
}

#[test]
fn linked_list_test_clone() {
    // Test cloning the list
    let mut list = LinkedList::new();
    list.push_back(&1); // Add 1 to the back
    list.push_back(&2); // Add 2 to the back
    list.push_back(&3); // Add 3 to the back

    let cloned_list = list.clone(); // Clone the list
    assert_eq!(cloned_list.len(), 3); // Cloned list should contain 3 elements
    assert_eq!(cloned_list.get(0), Some(1)); // First element should be 1
    assert_eq!(cloned_list.get(1), Some(2)); // Second element should be 2
    assert_eq!(cloned_list.get(2), Some(3)); // Third element should be 3

    // Modifying the source list must not affect the clone
    list.pop_back().unwrap(); // Modify the source list
    assert_eq!(list.len(), 2); // Source list should have 2 elements
    assert_eq!(cloned_list.len(), 3); // Cloned list should still have 3 elements
}

#[test]
fn linked_list_test_insert_remove_multiple() {
    // Test inserting and removing multiple elements
    let mut list = LinkedList::new();
    list.push_back(&1); // List: 1
    list.push_back(&3); // List: 1 -> 3
    list.insert(&2, 1).unwrap(); // List: 1 -> 2 -> 3
    list.insert(&4, 3).unwrap(); // List: 1 -> 2 -> 3 -> 4
    list.insert(&0, 0).unwrap(); // List: 0 -> 1 -> 2 -> 3 -> 4

    assert_eq!(list.len(), 5);
    assert_eq!(list.to_display_string(), "(0 -> 1 -> 2 -> 3 -> 4)");

    // Remove elements from various positions
    assert_eq!(list.remove(2), Ok(2)); // List: 0 -> 1 -> 3 -> 4
    assert_eq!(list.remove(0), Ok(0)); // List: 1 -> 3 -> 4
    assert_eq!(list.remove(2), Ok(4)); // List: 1 -> 3

    assert_eq!(list.len(), 2);
    assert_eq!(list.to_display_string(), "(1 -> 3)");
}

#[test]
fn linked_list_test_clean() {
    // Test cleaning the list
    let mut list = LinkedList::new();

    // Test clean on an empty list
    list.clean();
    assert_eq!(list.len(), 0);
    assert_eq!(list.to_display_string(), "()");

    // Test clean on a list with elements
    list.push_back(&1); // Add 1 to the back
    list.push_back(&2); // Add 2 to the back
    list.push_back(&3); // Add 3 to the back
    assert_eq!(list.len(), 3);
    assert_eq!(list.to_display_string(), "(1 -> 2 -> 3)");

    // Call clean and ensure the list is empty
    list.clean();
    assert_eq!(list.len(), 0);
    assert_eq!(list.to_display_string(), "()");
}

#[test]
fn test_from_vec() {
    // Test creating a list from a vector
    let list: LinkedList<i32> = LinkedList::from_vec(vec![]);
    assert_eq!(list.len(), 0); // Empty list
    assert_eq!(list.to_display_string(), "()");

    let list = LinkedList::from_vec(vec![1, 2, 3]);
    assert_eq!(list.len(), 3); // List should contain 3 elements
    assert_eq!(list.to_display_string(), "(1 -> 2 -> 3)");

    let list = LinkedList::from_vec(vec![1, 1, 1, 1]);
    assert_eq!(list.len(), 4); // List should contain 4 elements
    assert_eq!(list.to_display_string(), "(1 -> 1 -> 1 -> 1)");
}
