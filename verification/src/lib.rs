//! Etta's learning-engine core: input validation, prompt assembly, quiz schema
//! repair, grading rules, scheduling decisions, session planning, curriculum
//! graph checks and export scrubbing, each stated and proved with Verus.

pub mod text;
pub mod validate;
pub mod util;
pub mod sm2;
pub mod session;
pub mod json;
pub mod stream;
pub mod contract;
pub mod quiz_schema;
pub mod quiz_doc;
pub mod curriculum;
pub mod prompt;
pub mod prompt_shape;
pub mod lesson;
pub mod grading;
pub mod record;
pub mod planner;
pub mod placement;
pub mod export;
pub mod rate_limit;
pub mod models;
pub mod settings;
pub mod gamification;
pub mod samples;
pub mod cache;
pub mod mastery;
pub mod submission;
pub mod pending;
pub mod backup;
pub mod math_expr;
