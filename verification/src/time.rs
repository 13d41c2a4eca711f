//! The timetable of a course.

use vstd::prelude::*;

verus! {

/// Which timetable to show: the academic year, the faculty, the course and
/// its years.
pub struct TimeTableConfig {
    pub academic_year: String,
    pub faculty: String,
    pub course: String,
    pub years: Vec<String>,
}

} // verus!
