//! Evaluation of JavaScript in pooled Node.js processes: the decisions that an
//! evaluation takes, the values and streams that it yields, and the traversal of
//! trees. Each function is proved to do what its contract states; waiting,
//! reading and sending are left to the caller.
pub mod dir_dependency;
pub mod evaluate;
pub mod issue;
pub mod message;
pub mod operation;
pub mod pool;
pub mod stream;
pub mod tree_iter_ext;
pub mod value;
