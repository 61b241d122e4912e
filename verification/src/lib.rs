//! The verified core of the archive report writer.

pub mod text;
pub mod order;
pub mod scale;
pub mod assets;
pub mod stats;
pub mod time;
pub mod palette;
pub mod report;
pub mod names;
pub mod sections;
pub mod ui;
pub mod compare;
pub mod model;
pub mod rank;
pub mod members;
pub mod matrix;
pub mod timeline;
pub mod notes;
pub mod records;
pub mod masthead;
pub mod between;
pub mod people;
pub mod said;
pub mod rhythm;
pub mod churn;
pub mod topics;
pub mod window;
pub mod conversation;
