//! The value types: students, teachers, courses and formed classes.

use vstd::prelude::*;

verus! {

/// A student, identified by name.
#[derive(Debug, PartialEq, Eq)]
pub struct Student {
    pub name: String,
}

impl View for Student {
    type V = Seq<char>;

    open spec fn view(&self) -> Seq<char> {
        self.name@
    }
}

impl Clone for Student {
    fn clone(&self) -> (cloned: Self)
        ensures
            cloned == *self,
    {
        Student { name: self.name.clone() }
    }
}

impl Student {
    pub fn new(name: String) -> (student: Student)
        ensures
            student@ == name@,
    {
        Student { name }
    }

    pub fn name(&self) -> (name: &String)
        ensures
            name@ == self@,
    {
        &self.name
    }
}

/// A teacher, identified by name.
#[derive(Debug, PartialEq, Eq)]
pub struct Teacher {
    pub name: String,
}

impl View for Teacher {
    type V = Seq<char>;

    open spec fn view(&self) -> Seq<char> {
        self.name@
    }
}

impl Clone for Teacher {
    fn clone(&self) -> (cloned: Self)
        ensures
            cloned == *self,
    {
        Teacher { name: self.name.clone() }
    }
}

impl Teacher {
    pub fn new(name: String) -> (teacher: Teacher)
        ensures
            teacher@ == name@,
    {
        Teacher { name }
    }

    pub fn name(&self) -> (name: &String)
        ensures
            name@ == self@,
    {
        &self.name
    }
}

/// The mathematical value of a [`Course`]: its name and its inclusive bounds
/// on the number of students in one class.
pub struct CourseModel {
    pub name: Seq<char>,
    pub min_students: nat,
    pub max_students: nat,
}

/// A course offering, with inclusive lower and upper bounds on how many
/// students one class of it may hold. The type itself does not require
/// `min_students <= max_students`; a course whose bounds exclude every class
/// size is simply driven to an empty result by the engine.
#[derive(Debug, PartialEq, Eq)]
pub struct Course {
    pub name: String,
    pub min_students: usize,
    pub max_students: usize,
}

impl View for Course {
    type V = CourseModel;

    open spec fn view(&self) -> CourseModel {
        CourseModel {
            name: self.name@,
            min_students: self.min_students as nat,
            max_students: self.max_students as nat,
        }
    }
}

impl Clone for Course {
    fn clone(&self) -> (cloned: Self)
        ensures
            cloned == *self,
    {
        Course {
            name: self.name.clone(),
            min_students: self.min_students,
            max_students: self.max_students,
        }
    }
}

impl Course {
    pub fn new(name: String, min_students: usize, max_students: usize) -> (course: Course)
        ensures
            course@ == (CourseModel {
                name: name@,
                min_students: min_students as nat,
                max_students: max_students as nat,
            }),
    {
        Course { name, min_students, max_students }
    }

    pub fn name(&self) -> (name: &String)
        ensures
            name@ == self@.name,
    {
        &self.name
    }

    pub fn min_students(&self) -> (min_students: usize)
        ensures
            min_students as nat == self@.min_students,
    {
        self.min_students
    }

    pub fn max_students(&self) -> (max_students: usize)
        ensures
            max_students as nat == self@.max_students,
    {
        self.max_students
    }
}

/// The names of a sequence of students, in order.
pub open spec fn student_views(students: Seq<Student>) -> Seq<Seq<char>> {
    students.map_values(|student: Student| student@)
}

/// The names of a sequence of teachers, in order.
pub open spec fn teacher_views(teachers: Seq<Teacher>) -> Seq<Seq<char>> {
    teachers.map_values(|teacher: Teacher| teacher@)
}

/// The mathematical value of a [`Class`]: the course it belongs to, its
/// teacher's name, and its students' names in order.
pub struct ClassModel {
    pub course: CourseModel,
    pub teacher: Seq<char>,
    pub students: Seq<Seq<char>>,
}

/// One formed class: a snapshot of the course, exactly one teacher, and the
/// students assigned to that teacher in their original relative order.
#[derive(Debug, PartialEq, Eq)]
pub struct Class {
    pub course: Course,
    pub teacher: Teacher,
    pub students: Vec<Student>,
}

impl View for Class {
    type V = ClassModel;

    open spec fn view(&self) -> ClassModel {
        ClassModel {
            course: self.course@,
            teacher: self.teacher@,
            students: student_views(self.students@),
        }
    }
}

impl Class {
    pub fn new(course: Course, teacher: Teacher, students: Vec<Student>) -> (class: Class)
        ensures
            class@ == (ClassModel {
                course: course@,
                teacher: teacher@,
                students: student_views(students@),
            }),
    {
        Class { course, teacher, students }
    }

    pub fn course(&self) -> (course: &Course)
        ensures
            course@ == self@.course,
    {
        &self.course
    }

    pub fn teacher(&self) -> (teacher: &Teacher)
        ensures
            teacher@ == self@.teacher,
    {
        &self.teacher
    }

    pub fn students(&self) -> (students: &Vec<Student>)
        ensures
            student_views(students@) == self@.students,
    {
        &self.students
    }
}

/// The models of a sequence of classes, in order.
pub open spec fn class_views(classes: Seq<Class>) -> Seq<ClassModel> {
    classes.map_values(|class: Class| class@)
}

} // verus!
