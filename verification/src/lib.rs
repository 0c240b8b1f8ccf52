pub mod channel;
pub mod config;
pub mod connection_laws;
pub mod data_segment;
pub mod dynamic_storage;
pub mod fabric_laws;
pub mod header;
pub mod history;
pub mod message_type_details;
pub mod messaging_pattern;
pub mod naming_scheme;
pub mod pointer_offset;
pub mod pool_allocator;
pub mod port;
pub mod process_state;
pub mod publisher;
pub mod publisher_connections;
pub mod publisher_model;
pub mod request_response;
pub mod shm_allocator;
pub mod used_chunk_list;
pub mod zero_copy_connection;
pub mod zero_copy_traits;
