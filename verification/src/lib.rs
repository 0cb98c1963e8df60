pub mod load_info;
pub mod generic_stream;
pub mod sequences;
pub mod stream_driver;
pub mod node_init;
pub mod oneshot;
pub mod buffer_writer;
pub mod vecdeque_buffer_writer;
pub mod stream_control;
pub mod iterator_source;
pub mod utf8_validator;
pub mod slice;
pub mod str_stream;
pub mod identity;
pub mod error;
pub mod bin_expr;
pub mod repeat;
pub mod notify;
pub mod once_init;
pub mod str_char_stream;
pub mod single_buffer_stream;
