pub mod benches;
