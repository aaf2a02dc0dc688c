pub mod delta;
pub mod mean_based_compression;
pub mod similar_values;
pub mod xor_gorilla;
