pub mod aead;
pub mod clipboard;
pub mod config;
pub mod codec;
pub mod error;
pub mod kdf;
pub mod lock_screen;
pub mod models;
pub mod password_generator;
pub mod password_generator_modal;
pub mod search;
mod sys;
pub mod vault_file;
pub mod vault_service;
