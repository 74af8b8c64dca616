//! Verified rules behind the dataset, training and inspection tools.
pub mod batcher;
pub mod benchmark;
pub mod bits;
pub mod candidates;
pub mod capi;
pub mod catalog;
pub mod compare;
pub mod dataset;
pub mod evaluator;
pub mod field;
pub mod field_capture;
pub mod fit;
pub mod furnishing;
pub mod gbuffer;
pub mod generate;
pub mod image;
pub mod incident;
pub mod json;
pub mod lobe_scale;
pub mod mesh;
pub mod model;
pub mod noise_risk;
pub mod noise_study;
pub mod oidn_reference;
pub mod options;
pub mod paths;
pub mod pfm;
pub mod pixels;
pub mod provenance;
pub mod radiance;
pub mod reference_noise;
pub mod render;
pub mod scene;
pub mod schedule;
pub mod selector;
pub mod temporal_oracle;
pub mod text;
pub mod texture;
pub mod train;
pub mod transport;
