//! Verified core of Biquad Studio: the AutoEQ profile parser, the headphone
//! database queries, the plugin's command decisions and the engine lifecycle.

pub mod text;
pub mod order;
pub mod number;
pub mod parser;
pub mod profile;
pub mod database;
pub mod process;
pub mod device;
pub mod shell;
pub mod stream;
pub mod params;
pub mod commands;
pub mod engine;
pub mod noise;
pub mod denormals;
