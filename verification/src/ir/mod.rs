pub mod terms;
