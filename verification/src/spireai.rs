pub mod enumerator;
pub mod predictor;
pub mod references;
