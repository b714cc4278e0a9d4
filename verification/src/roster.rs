//! Caller-side rosters: who wants to take and who can teach which course.
//!
//! A submission pairs a student or teacher with the courses they signed up
//! for. Before the engine runs for one course, the rosters are filtered down
//! to the students and teachers associated with that course, in submission
//! order.

use vstd::prelude::*;

use crate::entities::student_views;
use crate::entities::teacher_views;
use crate::entities::Course;
use crate::entities::CourseModel;
use crate::entities::Student;
use crate::entities::Teacher;

verus! {

/// The models of a sequence of courses, in order.
pub open spec fn course_views(courses: Seq<Course>) -> Seq<CourseModel> {
    courses.map_values(|course: Course| course@)
}

/// Whether two courses are the same offering: same name and same bounds.
fn same_course(a: &Course, b: &Course) -> (same: bool)
    ensures
        same == (a@ == b@),
{
    let names_match = a.name == b.name;
    names_match && a.min_students == b.min_students && a.max_students == b.max_students
}

/// Whether `courses` holds a course whose model is `course`.
fn contains_course(courses: &Vec<Course>, course: &Course) -> (found: bool)
    ensures
        found == course_views(courses@).contains(course@),
{
    let mut index: usize = 0;
    while index < courses.len()
        invariant
            index <= courses@.len(),
            forall|j: int| 0 <= j < index as int ==> (#[trigger] courses@[j])@ != course@,
        decreases courses@.len() - index,
    {
        if same_course(&courses[index], course) {
            proof {
                assert(course_views(courses@)[index as int] == course@);
            }
            return true;
        }
        index = index + 1;
    }
    proof {
        assert forall|j: int| 0 <= j < course_views(courses@).len() implies course_views(
            courses@,
        )[j] != course@ by {
            assert(course_views(courses@)[j] == courses@[j]@);
        }
    }
    false
}

/// The mathematical value of a [`StudentSubmission`].
pub struct StudentSubmissionModel {
    pub student: Seq<char>,
    pub course_prefs: Seq<CourseModel>,
}

/// One student's signup: the student and the courses they would take.
#[derive(Debug, PartialEq, Eq)]
pub struct StudentSubmission {
    pub student: Student,
    pub course_prefs: Vec<Course>,
}

impl View for StudentSubmission {
    type V = StudentSubmissionModel;

    open spec fn view(&self) -> StudentSubmissionModel {
        StudentSubmissionModel {
            student: self.student@,
            course_prefs: course_views(self.course_prefs@),
        }
    }
}

impl StudentSubmission {
    pub fn new(student: Student, course_prefs: Vec<Course>) -> (submission: StudentSubmission)
        ensures
            submission@ == (StudentSubmissionModel {
                student: student@,
                course_prefs: course_views(course_prefs@),
            }),
    {
        StudentSubmission { student, course_prefs }
    }

    /// Whether this student signed up for `course`.
    pub fn prefers(&self, course: &Course) -> (prefers: bool)
        ensures
            prefers == self@.course_prefs.contains(course@),
    {
        contains_course(&self.course_prefs, course)
    }
}

/// The mathematical value of a [`TeacherSubmission`].
pub struct TeacherSubmissionModel {
    pub teacher: Seq<char>,
    pub courses: Seq<CourseModel>,
}

/// One teacher's signup: the teacher and the courses they can teach.
#[derive(Debug, PartialEq, Eq)]
pub struct TeacherSubmission {
    pub teacher: Teacher,
    pub courses: Vec<Course>,
}

impl View for TeacherSubmission {
    type V = TeacherSubmissionModel;

    open spec fn view(&self) -> TeacherSubmissionModel {
        TeacherSubmissionModel {
            teacher: self.teacher@,
            courses: course_views(self.courses@),
        }
    }
}

impl TeacherSubmission {
    pub fn new(teacher: Teacher, courses: Vec<Course>) -> (submission: TeacherSubmission)
        ensures
            submission@ == (TeacherSubmissionModel {
                teacher: teacher@,
                courses: course_views(courses@),
            }),
    {
        TeacherSubmission { teacher, courses }
    }

    /// Whether this teacher signed up to teach `course`.
    pub fn teaches(&self, course: &Course) -> (teaches: bool)
        ensures
            teaches == self@.courses.contains(course@),
    {
        contains_course(&self.courses, course)
    }
}

/// The models of a sequence of student submissions, in order.
pub open spec fn student_submission_views(submissions: Seq<StudentSubmission>) -> Seq<
    StudentSubmissionModel,
> {
    submissions.map_values(|submission: StudentSubmission| submission@)
}

/// The models of a sequence of teacher submissions, in order.
pub open spec fn teacher_submission_views(submissions: Seq<TeacherSubmission>) -> Seq<
    TeacherSubmissionModel,
> {
    submissions.map_values(|submission: TeacherSubmission| submission@)
}

/// The students who signed up for `course`, in submission order.
pub open spec fn students_preferring(
    submissions: Seq<StudentSubmissionModel>,
    course: CourseModel,
) -> Seq<Seq<char>> {
    submissions.filter(
        |submission: StudentSubmissionModel| submission.course_prefs.contains(course),
    ).map_values(|submission: StudentSubmissionModel| submission.student)
}

/// The teachers who signed up to teach `course`, in submission order.
pub open spec fn teachers_teaching(
    submissions: Seq<TeacherSubmissionModel>,
    course: CourseModel,
) -> Seq<Seq<char>> {
    submissions.filter(|submission: TeacherSubmissionModel| submission.courses.contains(course)).map_values(
        |submission: TeacherSubmissionModel| submission.teacher,
    )
}

/// Filters the student roster down to the students who signed up for
/// `course`, keeping submission order.
pub fn students_for_course(submissions: &Vec<StudentSubmission>, course: &Course) -> (students: Vec<
    Student,
>)
    ensures
        student_views(students@) == students_preferring(
            student_submission_views(submissions@),
            course@,
        ),
{
    let ghost all = student_submission_views(submissions@);
    let ghost pred = |submission: StudentSubmissionModel| submission.course_prefs.contains(course@);
    let mut students: Vec<Student> = Vec::new();
    let mut index: usize = 0;
    proof {
        reveal(Seq::filter);
        assert(all.take(0) =~= Seq::<StudentSubmissionModel>::empty());
    }
    while index < submissions.len()
        invariant
            index <= submissions@.len(),
            all == student_submission_views(submissions@),
            pred == (|submission: StudentSubmissionModel|
                submission.course_prefs.contains(course@)),
            student_views(students@) == all.take(index as int).filter(pred).map_values(
                |submission: StudentSubmissionModel| submission.student,
            ),
        decreases submissions@.len() - index,
    {
        let ghost taken = all.take(index as int);
        let ghost taken_next = all.take(index as int + 1);
        proof {
            reveal(Seq::filter);
            assert(taken_next.drop_last() =~= taken);
            assert(taken_next.last() == submissions@[index as int]@);
        }
        let ghost students_before = students@;
        if submissions[index].prefers(course) {
            students.push(submissions[index].student.clone());
            proof {
                assert(student_views(students@) =~= student_views(students_before).push(
                    submissions@[index as int]@.student,
                ));
            }
        }
        proof {
            assert(student_views(students@) =~= taken_next.filter(pred).map_values(
                |submission: StudentSubmissionModel| submission.student,
            ));
        }
        index = index + 1;
    }
    proof {
        assert(all.take(all.len() as int) =~= all);
    }
    students
}

/// Filters the teacher roster down to the teachers who signed up to teach
/// `course`, keeping submission order.
pub fn teachers_for_course(submissions: &Vec<TeacherSubmission>, course: &Course) -> (teachers: Vec<
    Teacher,
>)
    ensures
        teacher_views(teachers@) == teachers_teaching(
            teacher_submission_views(submissions@),
            course@,
        ),
{
    let ghost all = teacher_submission_views(submissions@);
    let ghost pred = |submission: TeacherSubmissionModel| submission.courses.contains(course@);
    let mut teachers: Vec<Teacher> = Vec::new();
    let mut index: usize = 0;
    proof {
        reveal(Seq::filter);
        assert(all.take(0) =~= Seq::<TeacherSubmissionModel>::empty());
    }
    while index < submissions.len()
        invariant
            index <= submissions@.len(),
            all == teacher_submission_views(submissions@),
            pred == (|submission: TeacherSubmissionModel| submission.courses.contains(course@)),
            teacher_views(teachers@) == all.take(index as int).filter(pred).map_values(
                |submission: TeacherSubmissionModel| submission.teacher,
            ),
        decreases submissions@.len() - index,
    {
        let ghost taken = all.take(index as int);
        let ghost taken_next = all.take(index as int + 1);
        proof {
            reveal(Seq::filter);
            assert(taken_next.drop_last() =~= taken);
            assert(taken_next.last() == submissions@[index as int]@);
        }
        let ghost teachers_before = teachers@;
        if submissions[index].teaches(course) {
            teachers.push(submissions[index].teacher.clone());
            proof {
                assert(teacher_views(teachers@) =~= teacher_views(teachers_before).push(
                    submissions@[index as int]@.teacher,
                ));
            }
        }
        proof {
            assert(teacher_views(teachers@) =~= taken_next.filter(pred).map_values(
                |submission: TeacherSubmissionModel| submission.teacher,
            ));
        }
        index = index + 1;
    }
    proof {
        assert(all.take(all.len() as int) =~= all);
    }
    teachers
}

} // verus!
