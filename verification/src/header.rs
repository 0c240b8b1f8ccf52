pub mod request_response;
