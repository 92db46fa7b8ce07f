pub mod chat;
