//! SQL statement generation and row-set reconstruction for trees of associated tables.
//!
//! A [`Table`] is one occurrence of a table in an association tree, instantiated from its
//! schema ([`TableDefs`]) with a suffix per node used for aliasing. The tree writes a
//! SELECT with one LEFT JOIN per association, and INSERT, UPDATE and DELETE statements for the
//! values bound to its nodes, writing a node shared by several parents once ([`VisitedNodes`]).
//! The rows that the SELECT returns are grouped back into entities by primary-key change
//! ([`collect_entities_tables`]).

mod association;
mod error;
mod field;
mod laws;
mod names;
mod order_by;
mod rows;
mod table;
mod value;
mod visited;
mod write_select;
mod write_stmt;

pub use association::{Association, FullAssociation};
pub use error::Error;
pub use field::{Field, TableField};
pub use laws::{
    children_unbound, defs_suffixes_upto, lemma_adjacent_entities_differ,
    lemma_collection_folds_children, elements_unbound, lemma_collision_fails,
    lemma_group_spans_key_run, lemma_insert_unbound_is_empty, lemma_insert_unbound_tree_is_empty,
    lemma_suffix_determinism, lemma_unbound_id_writes_only_children, lemma_visited_is_skipped,
    suffixes, suffixes_upto, tree_unbound, unbound,
};
pub use names::{
    ascii_lower, ascii_upper, camel_case_with, camel_upto, lower_flags, lowercase_char,
    snake_case_with, snake_upto, to_camel_case, to_snake_case, upper_flags, uppercase_char,
};
pub use order_by::{Limit, OrderBy};
pub use rows::{
    assembled, cell_value, collect_entities_tables, collect_runs, entity_from_first_row,
    find_column, fold_chain, fold_rest,
    group_at, group_rest, keys_match, row_key, same_key, same_value, seek_related_entities,
    values_match, FromRowsSuffix, NoTableEntity, ParentEntity, Row,
};
pub use table::{
    aliases, aliases_upto, all_distinct, children_upto, defs_aliases, defs_aliases_upto,
    defs_display_name, instance_of, instantiable, node_matches, pairs_view, suffixes_fit,
    AssociationDefs, Table,
    TableAssociationWrapper, TableDefs,
};
pub use value::{
    decimal, decimal_display, digit_char, quoted, signed_decimal, value_text, write_decimal,
    write_value, zero_padded, DecimalValue, Value, DECIMAL_MAX_MANTISSA, DECIMAL_MAX_SCALE,
};
pub use visited::{
    entries_map, hash_bytes, hash_opt_text, hash_opt_value, hash_text, hash_value, hash_word,
    mark_outcome, node_hash, sorted_by_hash, VisitedNodes, HASH_SEED,
};
pub use write_select::{
    by_id_text, children_fields_text, children_orders_text, column_alias, column_ref,
    display_name, join_text, joins_text, limit_text, node_fields_text, order_by_text,
    orders_text, own_fields_text, own_joins_text, quoted_ref, select_fields_text,
    select_head_text, select_item, select_tail_text, select_text, sub_joins_text, where_text,
    write_column_alias,
};
pub use write_stmt::{
    delete_stmt, insert_names_text, insert_stmt, insert_values_text, lemma_children_step,
    lemma_children_zero, lemma_elements_step, lemma_elements_zero, lemma_run_unfold,
    link_applies, node_stmt, opt_val, update_sets_text, update_stmt, write_children,
    write_elements, write_run, WriteKind, WriteOutcome,
};
