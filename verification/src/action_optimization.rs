pub mod acyclicity;
pub mod drawing;
pub mod graph_entity;
pub mod pass_facts;
pub mod net;
pub mod relation;
pub mod seq_facts;
pub mod util;
pub mod optimize;
