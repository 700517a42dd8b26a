//! Verified core of the hypAiAssist ant swarm.
pub mod text;
pub mod plaza;
pub mod dispatch;
pub mod buffers;
pub mod codec;
pub mod digi;
pub mod vad;
pub mod silero;
pub mod phone_silero;
pub mod tts;
pub mod call;
pub mod twilio;
pub mod web;
pub mod scrape;
pub mod airy;
pub mod recorder;
pub mod llm;
pub mod transcript;
pub mod speaker;
pub mod router;
pub mod capture;
