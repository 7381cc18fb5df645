//! Settings of the monitor.

use vstd::prelude::*;
use crate::size::{SizeValue, GIGABYTE};

verus! {

/// Where alerts are sent.
#[derive(Clone, Debug)]
pub struct TelegramConfig {
    /// The token of the bot that sends.
    pub bot_token: String,
    /// The chat that receives.
    pub alerts_chat: String,
}

impl Default for TelegramConfig {
    fn default() -> (config: TelegramConfig)
        ensures
            config.bot_token@.len() == 0,
            config.alerts_chat@.len() == 0,
    {
        TelegramConfig { bot_token: String::new(), alerts_chat: String::new() }
    }
}

/// What is watched.
#[derive(Clone, Debug)]
pub struct MonitorConfig {
    /// The budget of the state directory: above it, every poll alerts.
    pub max_size: SizeValue,
}

impl Default for MonitorConfig {
    fn default() -> (config: MonitorConfig)
        ensures
            config.max_size.bytes == 10 * GIGABYTE,
    {
        MonitorConfig { max_size: SizeValue { bytes: 10 * GIGABYTE } }
    }
}

/// All settings.
#[derive(Clone, Debug)]
pub struct AppConfig {
    pub telegram: TelegramConfig,
    pub monitor: MonitorConfig,
}

impl Default for AppConfig {
    fn default() -> (config: AppConfig)
        ensures
            config.telegram.bot_token@.len() == 0,
            config.telegram.alerts_chat@.len() == 0,
            config.monitor.max_size.bytes == 10 * GIGABYTE,
    {
        AppConfig { telegram: TelegramConfig::default(), monitor: MonitorConfig::default() }
    }
}

} // verus!
