//! Verified core of a desktop vocabulary assistant: OCR text filtering,
//! sentence assembly, image cropping, lookup post-processing and word storage.

pub mod text;
pub mod ocr_filter;
pub mod lookup_text;
pub mod lookup_flow;
pub mod image;
pub mod geometry;
pub mod clock;
pub mod storage;
pub mod input;
pub mod click_flow;
pub mod sentence;
pub mod json_reply;
pub mod provider;
pub mod reply_fields;
pub mod ai;
pub mod api;
pub mod screenshot;
pub mod recognition;
pub mod ocr_config;
pub mod warmup;
pub mod components;
pub mod framing;
