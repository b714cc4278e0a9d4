use timetable::{form_classes, Class, Course, Student, Teacher};

#[test]
fn no_teachers_no_classes() {
    assert_eq!(
        form_classes(
            Course::new("English".to_string(), 2, 5),
            Vec::new(),
            vec![Student::new("Student 1".to_string())]
        ),
        Vec::new()
    );
}

#[test]
fn no_students_no_classes() {
    assert_eq!(
        form_classes(
            Course::new("English".to_string(), 2, 5),
            vec![Teacher::new("Teacher 1".to_string())],
            Vec::new()
        ),
        Vec::new()
    );
}

#[test]
fn students_divide_evenly() {
    let english = Course::new("English".to_string(), 2, 5);

    assert_eq!(
        form_classes(
            english.clone(),
            vec![
                Teacher::new("Teacher 1".to_string()),
                Teacher::new("Teacher 2".to_string())
            ],
            vec![
                Student::new("Student 1".to_string()),
                Student::new("Student 2".to_string()),
                Student::new("Student 3".to_string()),
                Student::new("Student 4".to_string())
            ]
        ),
        vec![
            Class::new(
                english.clone(),
                Teacher::new("Teacher 1".to_string()),
                vec![
                    Student::new("Student 1".to_string()),
                    Student::new("Student 2".to_string())
                ]
            ),
            Class::new(
                english,
                Teacher::new("Teacher 2".to_string()),
                vec![
                    Student::new("Student 3".to_string()),
                    Student::new("Student 4".to_string())
                ]
            )
        ]
    )
}

#[test]
fn students_divide_unevenly() {
    let english = Course::new("English".to_string(), 1, 5);

    assert_eq!(
        form_classes(
            english.clone(),
            vec![
                Teacher::new("Teacher 1".to_string()),
                Teacher::new("Teacher 2".to_string())
            ],
            vec![
                Student::new("Student 1".to_string()),
                Student::new("Student 2".to_string()),
                Student::new("Student 3".to_string()),
            ]
        ),
        vec![
            Class::new(
                english.clone(),
                Teacher::new("Teacher 1".to_string()),
                vec![
                    Student::new("Student 1".to_string()),
                    Student::new("Student 2".to_string())
                ]
            ),
            Class::new(
                english,
                Teacher::new("Teacher 2".to_string()),
                vec![Student::new("Student 3".to_string())]
            )
        ]
    )
}

#[test]
fn excess_of_teachers() {
    let english = Course::new("English".to_string(), 2, 5);

    assert_eq!(
        form_classes(
            english.clone(),
            vec![
                Teacher::new("Teacher 1".to_string()),
                Teacher::new("Teacher 2".to_string())
            ],
            vec![
                Student::new("Student 1".to_string()),
                Student::new("Student 2".to_string())
            ]
        ),
        vec![Class::new(
            english,
            Teacher::new("Teacher 1".to_string()),
            vec![
                Student::new("Student 1".to_string()),
                Student::new("Student 2".to_string())
            ]
        )]
    )
}

#[test]
fn excess_of_students() {
    let english = Course::new("English".to_string(), 1, 2);

    assert_eq!(
        form_classes(
            english.clone(),
            vec![Teacher::new("Teacher 1".to_string())],
            vec![
                Student::new("Student 1".to_string()),
                Student::new("Student 2".to_string()),
                Student::new("Student 3".to_string())
            ]
        ),
        vec![Class::new(
            english,
            Teacher::new("Teacher 1".to_string()),
            vec![
                Student::new("Student 1".to_string()),
                Student::new("Student 2".to_string())
            ]
        )]
    )
}

#[test]
fn remainder_spreads_over_the_front() {
    let maths = Course::new("Maths".to_string(), 1, 5);

    assert_eq!(
        form_classes(
            maths.clone(),
            vec![
                Teacher::new("Teacher 1".to_string()),
                Teacher::new("Teacher 2".to_string()),
                Teacher::new("Teacher 3".to_string())
            ],
            vec![
                Student::new("Student 1".to_string()),
                Student::new("Student 2".to_string()),
                Student::new("Student 3".to_string()),
                Student::new("Student 4".to_string()),
                Student::new("Student 5".to_string())
            ]
        ),
        vec![
            Class::new(
                maths.clone(),
                Teacher::new("Teacher 1".to_string()),
                vec![
                    Student::new("Student 1".to_string()),
                    Student::new("Student 2".to_string())
                ]
            ),
            Class::new(
                maths.clone(),
                Teacher::new("Teacher 2".to_string()),
                vec![
                    Student::new("Student 3".to_string()),
                    Student::new("Student 4".to_string())
                ]
            ),
            Class::new(
                maths,
                Teacher::new("Teacher 3".to_string()),
                vec![Student::new("Student 5".to_string())]
            )
        ]
    )
}

#[test]
fn impossible_bounds_empty_out_the_result() {
    // A minimum above the maximum can never be satisfied; the repair loop
    // drains one sequence and ends with no classes.
    assert_eq!(
        form_classes(
            Course::new("Science".to_string(), 5, 2),
            vec![Teacher::new("Teacher 1".to_string())],
            vec![
                Student::new("Student 1".to_string()),
                Student::new("Student 2".to_string()),
                Student::new("Student 3".to_string())
            ]
        ),
        Vec::new()
    );
}

#[test]
fn duplicate_teachers_get_their_own_classes() {
    let maths = Course::new("Maths".to_string(), 1, 5);

    assert_eq!(
        form_classes(
            maths.clone(),
            vec![
                Teacher::new("Teacher 1".to_string()),
                Teacher::new("Teacher 1".to_string())
            ],
            vec![
                Student::new("Student 1".to_string()),
                Student::new("Student 2".to_string())
            ]
        ),
        vec![
            Class::new(
                maths.clone(),
                Teacher::new("Teacher 1".to_string()),
                vec![Student::new("Student 1".to_string())]
            ),
            Class::new(
                maths,
                Teacher::new("Teacher 1".to_string()),
                vec![Student::new("Student 2".to_string())]
            )
        ]
    )
}

#[test]
fn rerunning_on_a_stable_grouping_changes_nothing() {
    let english = Course::new("English".to_string(), 1, 5);
    let teachers = vec![
        Teacher::new("Teacher 1".to_string()),
        Teacher::new("Teacher 2".to_string()),
    ];
    let students = vec![
        Student::new("Student 1".to_string()),
        Student::new("Student 2".to_string()),
        Student::new("Student 3".to_string()),
    ];

    let first = form_classes(english.clone(), teachers, students);

    let kept_teachers: Vec<Teacher> = first
        .iter()
        .map(|class| class.teacher.clone())
        .collect();
    let kept_students: Vec<Student> = first
        .iter()
        .flat_map(|class| class.students.iter().cloned())
        .collect();

    let second = form_classes(english, kept_teachers, kept_students);
    assert_eq!(second, first);
}

#[test]
fn rerunning_on_a_repaired_grouping_changes_nothing() {
    // This input needs a repair (three students exceed the maximum of two),
    // but the repaired grouping itself is stable under a re-run.
    let science = Course::new("Science".to_string(), 1, 2);
    let first = form_classes(
        science.clone(),
        vec![Teacher::new("Teacher 1".to_string())],
        vec![
            Student::new("Student 1".to_string()),
            Student::new("Student 2".to_string()),
            Student::new("Student 3".to_string()),
        ],
    );

    let kept_teachers: Vec<Teacher> = first
        .iter()
        .map(|class| class.teacher.clone())
        .collect();
    let kept_students: Vec<Student> = first
        .iter()
        .flat_map(|class| class.students.iter().cloned())
        .collect();

    let second = form_classes(science, kept_teachers, kept_students);
    assert_eq!(second, first);
}

#[test]
fn results_keep_a_prefix_of_the_input() {
    // The repair loop only ever drops from the tail, so the teachers used
    // and the students placed are prefixes of the inputs.
    let science = Course::new("Science".to_string(), 2, 2);
    let teachers = vec![
        Teacher::new("Teacher 1".to_string()),
        Teacher::new("Teacher 2".to_string()),
        Teacher::new("Teacher 3".to_string()),
    ];
    let students = vec![
        Student::new("Student 1".to_string()),
        Student::new("Student 2".to_string()),
        Student::new("Student 3".to_string()),
        Student::new("Student 4".to_string()),
        Student::new("Student 5".to_string()),
    ];

    let classes = form_classes(science, teachers.clone(), students.clone());

    let used_teachers: Vec<Teacher> = classes
        .iter()
        .map(|class| class.teacher.clone())
        .collect();
    let placed_students: Vec<Student> = classes
        .iter()
        .flat_map(|class| class.students.iter().cloned())
        .collect();

    assert_eq!(used_teachers, teachers[..used_teachers.len()]);
    assert_eq!(placed_students, students[..placed_students.len()]);
    for class in &classes {
        assert!(2 <= class.students.len() && class.students.len() <= 2);
    }
}
