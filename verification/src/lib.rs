//! A verified greeting-ingest library: request validation, domain
//! conversion, an ingest service over pluggable storage sinks, and the
//! message-bus wire format with a proved round trip.

pub mod api;
pub mod codec;
pub mod kafka_greeting_consumer;
pub mod kafka_producer;
pub mod repository;
pub mod service;
