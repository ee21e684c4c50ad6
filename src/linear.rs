//! Full singly linked lists, one per ownership strategy, all under the same contract.
pub mod box_linked_list;
pub mod linked_list;
pub mod nonull_linked_list;
