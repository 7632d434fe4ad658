//! Reconstruction of a university group's weekly timetable from the cells of
//! its hourly grid.
pub mod text;
pub mod label;
pub mod fragment;
pub mod lesson;
pub mod timetable;
pub mod slot;
pub mod day;
pub mod group;
pub mod page;
