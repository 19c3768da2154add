pub mod algorithms;
pub mod convert;
pub mod envelope;
pub mod errors;
pub mod generator;
pub mod integer;
pub mod natural;
pub mod oaep;
pub mod plain_rsa;
pub mod sha256;
