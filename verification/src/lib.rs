//! Haptic script editing, analysis and device streaming logic.

pub mod axis;
pub mod batch;
pub mod buttplug;
pub mod device;
pub mod doctor;
pub mod editor;
pub mod frames;
pub mod funscript;
pub mod history;
pub mod generation;
pub mod gradient;
pub mod handy;
pub mod http;
pub mod hypothesis;
pub mod json;
pub mod level;
pub mod models;
pub mod panel;
pub mod paths;
pub mod pipeline;
pub mod player;
pub mod point_tracker;
pub mod recorder;
pub mod router;
pub mod scene;
pub mod scurve;
pub mod serial;
pub mod shortcuts;
pub mod signal;
pub mod spectral;
pub mod startup;
pub mod stash;
pub mod studio;
pub mod tcode;
pub mod text;
pub mod timeline;
pub mod tracker;
pub mod tracking;
pub mod waveform;
pub mod yolo26;
