pub mod instances;
pub mod oa;
pub mod rows;
pub mod todos;
