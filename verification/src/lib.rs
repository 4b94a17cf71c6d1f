//! Requirements management: the data model of requirements, their
//! relationships and identifiers, the project registry and the settings of
//! the graphical front end.
pub mod text;
pub mod order;
pub mod model;
pub mod clock;
pub mod comment;
pub mod thread;
pub mod requirement;
pub mod store;
pub mod numbering;
pub mod graph;
pub mod relations;
pub mod catalog;
pub mod prefixes;
pub mod typedefs;
pub mod features;
pub mod access;
pub mod registry;
pub mod settings;
pub mod cli;
pub mod listing;
pub mod editing;
pub mod actions;
pub mod forms;
pub mod treeview;
pub mod presets;
pub mod reltree;
pub mod navigation;
