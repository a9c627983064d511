# graphql_execution

Executes GraphQL queries against a schema. Resolvers find the values; the library decides what they
are asked for, checks their answers against the types of the schema, and puts the response together.
It is written in Verus, and every function of it is verified, except for the six that are marked
`external_body`.

- `src/query.rs`, `src/schema.rs`, `src/value.rs`: queries, schemas and values, and lookups in them.
- `src/resolver.rs`, `src/context.rs`: what a query is executed with. Resolvers and the coercion of
  input values are traits of which nothing is assumed.
- `src/collect.rs`, `src/field_groups.rs`, `src/merge.rs`: which fields are executed, grouped by
  response key.
- `src/coerce.rs`, `src/resolve.rs`: arguments and variables, and the values of fields.
- `src/execute.rs`: the execution itself. `src/run.rs` states what it does, answer by answer.
- `src/answerable.rs`: where an execution gets stuck, and which selections it can therefore answer.
  `try_execute_root_selection_set` asks nothing of its caller, and says when it got stuck.
- `src/clock.rs`: deadlines, and a record of what the clock was read as.
- `src/laws/`: what holds of every collection, coercion and execution, as proofs. The laws of groups
  and of merged selection sets stand beside them, in `src/field_groups.rs` and `src/merge.rs`.
- `app/`: documents as `graphql_parser` reads them, taken over into the library.

Field groups are held in an `indexmap::IndexMap`; what is believed of it, of `Arc::clone` and of the
clock is said at the functions marked `external_body`.
