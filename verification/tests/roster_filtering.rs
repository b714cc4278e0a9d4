use timetable::roster::{students_for_course, teachers_for_course};
use timetable::{form_classes, Course, Student, StudentSubmission, Teacher, TeacherSubmission};

#[test]
fn students_filter_by_preference_in_submission_order() {
    let maths = Course::new("Maths".to_string(), 1, 5);
    let science = Course::new("Science".to_string(), 1, 2);

    let submissions = vec![
        StudentSubmission::new(Student::new("Student 1".to_string()), vec![maths.clone()]),
        StudentSubmission::new(Student::new("Student 2".to_string()), vec![science.clone()]),
        StudentSubmission::new(
            Student::new("Student 3".to_string()),
            vec![maths.clone(), science.clone()],
        ),
        StudentSubmission::new(
            Student::new("Student 4".to_string()),
            vec![science.clone(), maths.clone()],
        ),
    ];

    assert_eq!(
        students_for_course(&submissions, &maths),
        vec![
            Student::new("Student 1".to_string()),
            Student::new("Student 3".to_string()),
            Student::new("Student 4".to_string())
        ]
    );
    assert_eq!(
        students_for_course(&submissions, &science),
        vec![
            Student::new("Student 2".to_string()),
            Student::new("Student 3".to_string()),
            Student::new("Student 4".to_string())
        ]
    );
}

#[test]
fn teachers_filter_by_course_taught() {
    let maths = Course::new("Maths".to_string(), 1, 5);
    let science = Course::new("Science".to_string(), 1, 2);

    let submissions = vec![
        TeacherSubmission::new(Teacher::new("Teacher 1".to_string()), vec![maths.clone()]),
        TeacherSubmission::new(Teacher::new("Teacher 2".to_string()), vec![science.clone()]),
    ];

    assert_eq!(
        teachers_for_course(&submissions, &maths),
        vec![Teacher::new("Teacher 1".to_string())]
    );
    assert_eq!(
        teachers_for_course(&submissions, &science),
        vec![Teacher::new("Teacher 2".to_string())]
    );
}

#[test]
fn courses_match_on_name_and_bounds() {
    let loose = Course::new("Maths".to_string(), 1, 5);
    let strict = Course::new("Maths".to_string(), 2, 2);

    let submissions = vec![StudentSubmission::new(
        Student::new("Student 1".to_string()),
        vec![strict.clone()],
    )];

    // Same name, different bounds: a different course offering.
    assert_eq!(students_for_course(&submissions, &loose), Vec::new());
    assert_eq!(
        students_for_course(&submissions, &strict),
        vec![Student::new("Student 1".to_string())]
    );
}

#[test]
fn filtered_rosters_feed_the_engine() {
    let science = Course::new("Science".to_string(), 1, 2);

    let teacher_submissions = vec![
        TeacherSubmission::new(Teacher::new("Teacher 1".to_string()), Vec::new()),
        TeacherSubmission::new(Teacher::new("Teacher 2".to_string()), vec![science.clone()]),
    ];
    let student_submissions = vec![
        StudentSubmission::new(Student::new("Student 1".to_string()), vec![science.clone()]),
        StudentSubmission::new(Student::new("Student 2".to_string()), Vec::new()),
        StudentSubmission::new(Student::new("Student 3".to_string()), vec![science.clone()]),
    ];

    let classes = form_classes(
        science.clone(),
        teachers_for_course(&teacher_submissions, &science),
        students_for_course(&student_submissions, &science),
    );

    assert_eq!(classes.len(), 1);
    assert_eq!(classes[0].course(), &science);
    assert_eq!(classes[0].teacher(), &Teacher::new("Teacher 2".to_string()));
    assert_eq!(
        classes[0].students(),
        &vec![
            Student::new("Student 1".to_string()),
            Student::new("Student 3".to_string())
        ]
    );
}

#[test]
fn entities_expose_their_parts() {
    let student = Student::new("Student 1".to_string());
    assert_eq!(student.name(), "Student 1");

    let teacher = Teacher::new("Teacher 1".to_string());
    assert_eq!(teacher.name(), "Teacher 1");

    let course = Course::new("Maths".to_string(), 1, 5);
    assert_eq!(course.name(), "Maths");
    assert_eq!(course.min_students(), 1);
    assert_eq!(course.max_students(), 5);
}
