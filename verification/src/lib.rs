pub mod application;
pub mod collector;
pub mod report;
pub mod storage;
pub mod text;
pub mod time;
pub mod tracker;
pub mod utf16;
