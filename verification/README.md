# turbopack_node

The decisions behind the evaluation of JavaScript in pooled Node.js processes,
verified with Verus, and a traversal that flattens trees into their leafs.

`src/` is the library. Every function in it is proved to meet its contract.

| module           | what it holds                                                      |
|------------------|--------------------------------------------------------------------|
| `tree_iter_ext`  | `flat_map_tree`, the iterator over the leafs of trees              |
| `message`        | the messages to and from the evaluating process                    |
| `operation`      | the loop that receives messages until one is an output             |
| `evaluate`       | the course of an evaluation, from its arguments to its last output |
| `value`          | the values that evaluated code yields                              |
| `stream`         | streams of values, and how they are read                           |
| `dir_dependency` | the walk that reads everything a glob matches                      |
| `pool`           | what the pool of processes is made of                              |
| `issue`          | the issues that an evaluation may raise                            |

`app/` runs these decisions: it sends, receives, reads and waits, against a host
that owns the file system, the issues and the processes. It also holds the locks
behind which streams are shared. `tests/` calls the library on concrete values.
