//! Class formation for a single course offering.
//!
//! Given one course with inclusive bounds on class size, a sequence of
//! teachers and a sequence of students, the engine splits the students into
//! contiguous blocks, one per teacher, and repairs out-of-bounds classes by
//! dropping the last teacher (class too small) or the last student (class too
//! large) and starting over, until every class is within bounds or no class
//! can be formed at all.

pub mod engine;
pub mod entities;
pub mod roster;

pub use engine::form_classes;
pub use entities::Class;
pub use entities::Course;
pub use entities::Student;
pub use entities::Teacher;
pub use roster::StudentSubmission;
pub use roster::TeacherSubmission;
