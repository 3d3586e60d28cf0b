//! Declaration composition: merges the fields and behaviours of named parent
//! declarations, transitively, into a child declaration, and synthesizes an
//! abstract contract that the composed behaviours implement.

pub mod compose;
pub mod contract;
pub mod entry;
pub mod laws;
pub mod member;
pub mod merge;
pub mod registry;
pub mod syntax;

pub use compose::{compose, ComposedDeclaration, InheritError};
pub use contract::{synthesize, Binding, Contract};
pub use entry::{inherit, parse_parent_list, ChildDeclaration, Composition, DeclarationKind};
pub use member::{get_impl_s_item_name, get_struct_field_name, Behavior, Member};
pub use merge::{check_and_replace_item_in_existing_array, merge_old_array_in_new_array};
pub use registry::{Registry, RegistryEntry, TopItem};
pub use syntax::{behavior_from_shape, block_target, declared_parents, inherit_from_source, read_child, read_program, UnitShape};
