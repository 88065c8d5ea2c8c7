//! Long-run averages of the daily minimum and maximum air temperature of one
//! calendar day, taken over every year of a station's hourly record.

pub mod calendar;
pub mod data_access;
pub mod downloader;
pub mod options;
pub mod stations;
pub mod temperature_calculator;
pub mod text;
