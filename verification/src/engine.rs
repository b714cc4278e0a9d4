//! The class-formation engine.
//!
//! One attempt distributes the students over the teachers in contiguous
//! blocks, remainder first; a scan then looks for the first class whose size
//! is out of bounds. A class below the minimum drops the last teacher, a
//! class above the maximum drops the last student, and the attempt restarts
//! from scratch. Each restart shrinks one of the two sequences by exactly
//! one element, so the process terminates.

use vstd::arithmetic::div_mod::lemma_fundamental_div_mod;
use vstd::prelude::*;

use crate::entities::class_views;
use crate::entities::student_views;
use crate::entities::teacher_views;
use crate::entities::Class;
use crate::entities::ClassModel;
use crate::entities::Course;
use crate::entities::CourseModel;
use crate::entities::Student;
use crate::entities::Teacher;

verus! {

/// How many students the class at position `index` receives when
/// `num_students` students are split over `num_teachers` teachers: everyone
/// gets the integer quotient, and the first `num_students % num_teachers`
/// classes get one extra.
pub open spec fn class_size(num_teachers: int, num_students: int, index: int) -> int {
    num_students / num_teachers + if index < num_students % num_teachers {
        1int
    } else {
        0int
    }
}

/// Where the block of students for the class at position `index` starts:
/// the total size of all earlier blocks.
pub open spec fn class_start(num_teachers: int, num_students: int, index: int) -> int
    decreases index,
{
    if index <= 0 {
        0
    } else {
        class_start(num_teachers, num_students, index - 1) + class_size(
            num_teachers,
            num_students,
            index - 1,
        )
    }
}

/// One distribution attempt: one class per teacher, in teacher order, each
/// taking its contiguous block of students.
pub open spec fn distributed(
    course: CourseModel,
    teachers: Seq<Seq<char>>,
    students: Seq<Seq<char>>,
) -> Seq<ClassModel> {
    Seq::new(
        teachers.len(),
        |index: int|
            ClassModel {
                course,
                teacher: teachers[index],
                students: students.subrange(
                    class_start(teachers.len() as int, students.len() as int, index),
                    class_start(teachers.len() as int, students.len() as int, index + 1),
                ),
            },
    )
}

/// What a scan of freshly distributed classes concludes, looking at the
/// first class (in teacher order) whose size is out of bounds.
pub enum ScanOutcome {
    /// Every class size lies within the bounds; the classes are final.
    AllWithinBounds,
    /// The first out-of-bounds class has too few students: there is an
    /// excess of teachers, and the last teacher is dropped.
    BelowMinimum,
    /// The first out-of-bounds class has too many students: there is an
    /// excess of students, and the last student is dropped.
    AboveMaximum,
}

/// The verdict of the scan over `classes`: the kind of the first bound
/// violation in order, checking the minimum before the maximum, or
/// [`ScanOutcome::AllWithinBounds`] when there is none.
pub open spec fn scan_verdict(
    min_students: nat,
    max_students: nat,
    classes: Seq<ClassModel>,
) -> ScanOutcome
    decreases classes.len(),
{
    if classes.len() == 0 {
        ScanOutcome::AllWithinBounds
    } else if classes[0].students.len() < min_students {
        ScanOutcome::BelowMinimum
    } else if classes[0].students.len() > max_students {
        ScanOutcome::AboveMaximum
    } else {
        scan_verdict(min_students, max_students, classes.drop_first())
    }
}

/// The classes the engine forms for `course` from `teachers` and
/// `students`: the repeated distribute-scan-repair attempt, which ends with
/// the first attempt whose classes are all within bounds, or with no classes
/// once either sequence runs out.
pub open spec fn spec_form_classes(
    course: CourseModel,
    teachers: Seq<Seq<char>>,
    students: Seq<Seq<char>>,
) -> Seq<ClassModel>
    decreases teachers.len() + students.len(),
{
    if teachers.len() == 0 || students.len() == 0 {
        Seq::empty()
    } else {
        let classes = distributed(course, teachers, students);
        match scan_verdict(course.min_students, course.max_students, classes) {
            ScanOutcome::AllWithinBounds => classes,
            ScanOutcome::BelowMinimum => spec_form_classes(course, teachers.drop_last(), students),
            ScanOutcome::AboveMaximum => spec_form_classes(course, teachers, students.drop_last()),
        }
    }
}

proof fn lemma_class_size_nonneg(num_teachers: int, num_students: int, index: int)
    requires
        1 <= num_teachers,
        0 <= num_students,
    ensures
        class_size(num_teachers, num_students, index) >= 0,
{
    assert(num_students / num_teachers >= 0) by (nonlinear_arith)
        requires
            1 <= num_teachers,
            0 <= num_students,
    ;
}

proof fn lemma_class_start_monotone(num_teachers: int, num_students: int, lo: int, hi: int)
    requires
        1 <= num_teachers,
        0 <= num_students,
        0 <= lo <= hi,
    ensures
        class_start(num_teachers, num_students, lo) <= class_start(num_teachers, num_students, hi),
    decreases hi - lo,
{
    if lo < hi {
        lemma_class_start_monotone(num_teachers, num_students, lo, hi - 1);
        lemma_class_size_nonneg(num_teachers, num_students, hi - 1);
    }
}

proof fn lemma_class_start_closed(num_teachers: int, num_students: int, index: int)
    requires
        1 <= num_teachers,
        0 <= num_students,
        0 <= index,
    ensures
        class_start(num_teachers, num_students, index) == index * (num_students / num_teachers) + if index
            <= num_students % num_teachers {
            index
        } else {
            num_students % num_teachers
        },
    decreases index,
{
    assert(num_students % num_teachers >= 0) by (nonlinear_arith)
        requires
            1 <= num_teachers,
            0 <= num_students,
    ;
    if index == 0 {
        assert(0int * (num_students / num_teachers) == 0) by (nonlinear_arith);
    } else {
        lemma_class_start_closed(num_teachers, num_students, index - 1);
        assert((index - 1) * (num_students / num_teachers) + (num_students / num_teachers) == index
            * (num_students / num_teachers)) by (nonlinear_arith);
    }
}

/// All the blocks together take exactly the whole student sequence.
proof fn lemma_class_start_total(num_teachers: int, num_students: int)
    requires
        1 <= num_teachers,
        0 <= num_students,
    ensures
        class_start(num_teachers, num_students, num_teachers) == num_students,
{
    lemma_class_start_closed(num_teachers, num_students, num_teachers);
    lemma_fundamental_div_mod(num_students, num_teachers);
    assert(num_students % num_teachers < num_teachers && num_students % num_teachers >= 0)
        by (nonlinear_arith)
        requires
            1 <= num_teachers,
            0 <= num_students,
    ;
    assert(num_teachers * (num_students / num_teachers) == (num_students / num_teachers)
        * num_teachers) by (nonlinear_arith);
}

proof fn lemma_student_views_subrange(students: Seq<Student>, lo: int, hi: int)
    requires
        0 <= lo <= hi <= students.len(),
    ensures
        student_views(students).subrange(lo, hi) == student_views(students.subrange(lo, hi)),
{
    assert(student_views(students).subrange(lo, hi) =~= student_views(students.subrange(lo, hi)));
}

/// One distribution attempt over nonempty teacher and student sequences:
/// one class per teacher, taking contiguous blocks of students with the
/// remainder spread over the front.
fn distribute(course: &Course, teachers: &Vec<Teacher>, students: &Vec<Student>) -> (classes: Vec<
    Class,
>)
    requires
        teachers@.len() >= 1,
        students@.len() >= 1,
    ensures
        class_views(classes@) == distributed(
            course@,
            teacher_views(teachers@),
            student_views(students@),
        ),
{
    let num_teachers = teachers.len();
    let num_students = students.len();
    let ghost t = num_teachers as int;
    let ghost s = num_students as int;
    let base_size = num_students / num_teachers;
    let num_leftover = num_students % num_teachers;
    let mut classes: Vec<Class> = Vec::new();
    let mut next_student: usize = 0;
    let mut index: usize = 0;
    while index < num_teachers
        invariant
            teachers@.len() == num_teachers,
            students@.len() == num_students,
            1 <= num_teachers,
            1 <= num_students,
            t == num_teachers as int,
            s == num_students as int,
            base_size as int == s / t,
            num_leftover as int == s % t,
            index <= num_teachers,
            next_student as int == class_start(t, s, index as int),
            classes@.len() == index as int,
            forall|k: int|
                0 <= k < index as int ==> (#[trigger] classes@[k])@ == distributed(
                    course@,
                    teacher_views(teachers@),
                    student_views(students@),
                )[k],
        decreases num_teachers - index,
    {
        proof {
            lemma_class_start_monotone(t, s, index as int + 1, t);
            lemma_class_start_total(t, s);
            lemma_class_start_monotone(t, s, 0, index as int);
            lemma_class_size_nonneg(t, s, index as int);
        }
        let class_size_here = if index < num_leftover {
            base_size + 1
        } else {
            base_size
        };
        assert(class_size_here as int == class_size(t, s, index as int));
        assert(next_student + class_size_here <= num_students);
        let mut block: Vec<Student> = Vec::new();
        let mut offset: usize = 0;
        while offset < class_size_here
            invariant
                offset <= class_size_here,
                next_student + class_size_here <= num_students,
                students@.len() == num_students,
                block@.len() == offset as int,
                forall|j: int|
                    0 <= j < offset as int ==> #[trigger] block@[j] == students@[next_student + j],
            decreases class_size_here - offset,
        {
            block.push(students[next_student + offset].clone());
            offset += 1;
        }
        proof {
            assert(block@ =~= students@.subrange(
                next_student as int,
                next_student + class_size_here,
            ));
            lemma_student_views_subrange(
                students@,
                next_student as int,
                next_student + class_size_here,
            );
        }
        classes.push(Class::new(course.clone(), teachers[index].clone(), block));
        next_student = next_student + class_size_here;
        index = index + 1;
    }
    proof {
        assert(class_views(classes@) =~= distributed(
            course@,
            teacher_views(teachers@),
            student_views(students@),
        ));
    }
    classes
}

/// Scans freshly distributed classes in teacher order and reports the kind
/// of the first class size out of bounds, if any.
fn scan(course: &Course, classes: &Vec<Class>) -> (outcome: ScanOutcome)
    ensures
        outcome == scan_verdict(course@.min_students, course@.max_students, class_views(classes@)),
{
    let mut index: usize = 0;
    proof {
        assert(class_views(classes@).skip(0) =~= class_views(classes@));
    }
    while index < classes.len()
        invariant
            index <= classes@.len(),
            scan_verdict(course@.min_students, course@.max_students, class_views(classes@))
                == scan_verdict(
                course@.min_students,
                course@.max_students,
                class_views(classes@).skip(index as int),
            ),
        decreases classes@.len() - index,
    {
        let ghost remaining = class_views(classes@).skip(index as int);
        proof {
            assert(remaining[0] == class_views(classes@)[index as int]);
        }
        let students_here = classes[index].students.len();
        if students_here < course.min_students {
            return ScanOutcome::BelowMinimum;
        } else if students_here > course.max_students {
            return ScanOutcome::AboveMaximum;
        }
        proof {
            assert(remaining.drop_first() =~= class_views(classes@).skip(index as int + 1));
        }
        index = index + 1;
    }
    proof {
        assert(class_views(classes@).skip(classes@.len() as int) =~= Seq::<ClassModel>::empty());
    }
    ScanOutcome::AllWithinBounds
}

proof fn lemma_teacher_views_drop_last(teachers: Seq<Teacher>)
    requires
        teachers.len() >= 1,
    ensures
        teacher_views(teachers.drop_last()) == teacher_views(teachers).drop_last(),
{
    assert(teacher_views(teachers.drop_last()) =~= teacher_views(teachers).drop_last());
}

proof fn lemma_student_views_drop_last(students: Seq<Student>)
    requires
        students.len() >= 1,
    ensures
        student_views(students.drop_last()) == student_views(students).drop_last(),
{
    assert(student_views(students.drop_last()) =~= student_views(students).drop_last());
}

/// Forms the classes for one course offering.
///
/// The students are split over the teachers in contiguous blocks in their
/// original relative order, the first `students.len() % teachers.len()`
/// teachers receiving one extra student. If some class ends up out of
/// bounds, the first such class in teacher order decides the repair — the
/// last teacher is dropped when it is below the minimum, the last student
/// when it is above the maximum — and the whole distribution restarts. The
/// result is the first attempt in which every class is within bounds, or no
/// classes at all once either sequence runs out.
pub fn form_classes(course: Course, teachers: Vec<Teacher>, students: Vec<Student>) -> (classes:
    Vec<Class>)
    ensures
        class_views(classes@) == spec_form_classes(
            course@,
            teacher_views(teachers@),
            student_views(students@),
        ),
        teachers@.len() == 0 || students@.len() == 0 ==> classes@.len() == 0,
        classes@.len() <= teachers@.len(),
        forall|k: int|
            0 <= k < classes@.len() ==> {
                let class = (#[trigger] classes@[k])@;
                &&& class.course == course@
                &&& course@.min_students <= class.students.len() <= course@.max_students
            },
        teachers_of(class_views(classes@)).is_prefix_of(teacher_views(teachers@)),
        students_of(class_views(classes@)).is_prefix_of(student_views(students@)),
    decreases teachers@.len() + students@.len(),
{
    let ghost original_teachers = teachers@;
    let ghost original_students = students@;
    let classes: Vec<Class>;
    if teachers.len() == 0 || students.len() == 0 {
        classes = Vec::new();
        proof {
            assert(class_views(classes@) =~= Seq::<ClassModel>::empty());
        }
    } else {
        let formed = distribute(&course, &teachers, &students);
        classes = match scan(&course, &formed) {
            ScanOutcome::AllWithinBounds => formed,
            ScanOutcome::BelowMinimum => {
                let mut teachers = teachers;
                let ghost full_teachers = teachers@;
                let _dropped = teachers.pop();
                proof {
                    assert(teacher_views(teachers@) =~= teacher_views(full_teachers).drop_last());
                }
                form_classes(course, teachers, students)
            },
            ScanOutcome::AboveMaximum => {
                let mut students = students;
                let ghost full_students = students@;
                let _dropped = students.pop();
                proof {
                    assert(student_views(students@) =~= student_views(full_students).drop_last());
                }
                form_classes(course, teachers, students)
            },
        };
    }
    proof {
        lemma_form_classes_within_bounds(
            course@,
            teacher_views(original_teachers),
            student_views(original_students),
        );
        lemma_form_classes_conserves(
            course@,
            teacher_views(original_teachers),
            student_views(original_students),
        );
        assert forall|k: int| 0 <= k < classes@.len() implies {
            let class = (#[trigger] classes@[k])@;
            &&& class.course == course@
            &&& course@.min_students <= class.students.len() <= course@.max_students
        } by {
            assert(classes@[k]@ == spec_form_classes(
                course@,
                teacher_views(original_teachers),
                student_views(original_students),
            )[k]);
        }
    }
    classes
}

/// The teachers of a sequence of classes, one per class, in class order.
pub open spec fn teachers_of(classes: Seq<ClassModel>) -> Seq<Seq<char>> {
    classes.map_values(|class: ClassModel| class.teacher)
}

/// All the students of a sequence of classes, in class order and within one
/// class in that class's order.
pub open spec fn students_of(classes: Seq<ClassModel>) -> Seq<Seq<char>>
    decreases classes.len(),
{
    if classes.len() == 0 {
        Seq::empty()
    } else {
        classes[0].students + students_of(classes.drop_first())
    }
}

proof fn lemma_scan_all_within_bounds(
    min_students: nat,
    max_students: nat,
    classes: Seq<ClassModel>,
)
    requires
        scan_verdict(min_students, max_students, classes) is AllWithinBounds,
    ensures
        forall|k: int|
            0 <= k < classes.len() ==> min_students <= (#[trigger] classes[k]).students.len()
                <= max_students,
    decreases classes.len(),
{
    if classes.len() > 0 {
        lemma_scan_all_within_bounds(min_students, max_students, classes.drop_first());
        assert forall|k: int|
            0 <= k < classes.len() implies min_students <= (#[trigger] classes[k]).students.len()
            <= max_students by {
            if k > 0 {
                assert(classes[k] == classes.drop_first()[k - 1]);
            }
        }
    }
}

proof fn lemma_teachers_of_distributed(
    course: CourseModel,
    teachers: Seq<Seq<char>>,
    students: Seq<Seq<char>>,
)
    ensures
        teachers_of(distributed(course, teachers, students)) == teachers,
{
    assert(teachers_of(distributed(course, teachers, students)) =~= teachers);
}

proof fn lemma_students_of_distributed_from(
    course: CourseModel,
    teachers: Seq<Seq<char>>,
    students: Seq<Seq<char>>,
    index: int,
)
    requires
        teachers.len() >= 1,
        0 <= index <= teachers.len(),
    ensures
        students_of(distributed(course, teachers, students).skip(index)) == students.subrange(
            class_start(teachers.len() as int, students.len() as int, index),
            students.len() as int,
        ),
    decreases teachers.len() - index,
{
    let t = teachers.len() as int;
    let s = students.len() as int;
    let formed = distributed(course, teachers, students);
    lemma_class_start_monotone(t, s, 0, index);
    lemma_class_start_monotone(t, s, index, t);
    lemma_class_start_total(t, s);
    if index == t {
        assert(formed.skip(t) =~= Seq::<ClassModel>::empty());
        assert(students.subrange(s, s) =~= Seq::<Seq<char>>::empty());
    } else {
        lemma_students_of_distributed_from(course, teachers, students, index + 1);
        lemma_class_start_monotone(t, s, index, index + 1);
        lemma_class_start_monotone(t, s, index + 1, t);
        assert(formed.skip(index)[0] == formed[index]);
        assert(formed.skip(index).drop_first() =~= formed.skip(index + 1));
        assert(students.subrange(class_start(t, s, index), class_start(t, s, index + 1))
            + students.subrange(class_start(t, s, index + 1), s) =~= students.subrange(
            class_start(t, s, index),
            s,
        ));
    }
}

proof fn lemma_students_of_distributed(
    course: CourseModel,
    teachers: Seq<Seq<char>>,
    students: Seq<Seq<char>>,
)
    requires
        teachers.len() >= 1,
    ensures
        students_of(distributed(course, teachers, students)) == students,
{
    lemma_students_of_distributed_from(course, teachers, students, 0);
    let formed = distributed(course, teachers, students);
    assert(formed.skip(0) =~= formed);
    assert(students.subrange(0, students.len() as int) =~= students);
}

/// Law: the engine never invents, reorders or duplicates anyone. The
/// teachers of the formed classes are a prefix of the given teachers, and
/// all their students together are a prefix of the given students.
pub proof fn lemma_form_classes_conserves(
    course: CourseModel,
    teachers: Seq<Seq<char>>,
    students: Seq<Seq<char>>,
)
    ensures
        teachers_of(spec_form_classes(course, teachers, students)).is_prefix_of(teachers),
        students_of(spec_form_classes(course, teachers, students)).is_prefix_of(students),
    decreases teachers.len() + students.len(),
{
    let classes = spec_form_classes(course, teachers, students);
    if teachers.len() == 0 || students.len() == 0 {
        assert(teachers_of(classes) =~= teachers.subrange(0, 0));
        assert(students_of(classes) =~= students.subrange(0, 0));
    } else {
        let verdict = scan_verdict(
            course.min_students,
            course.max_students,
            distributed(course, teachers, students),
        );
        if verdict is AllWithinBounds {
            lemma_teachers_of_distributed(course, teachers, students);
            lemma_students_of_distributed(course, teachers, students);
            assert(teachers.subrange(0, teachers.len() as int) =~= teachers);
            assert(students.subrange(0, students.len() as int) =~= students);
        } else if verdict is BelowMinimum {
            lemma_form_classes_conserves(course, teachers.drop_last(), students);
            let kept = teachers_of(classes);
            assert(teachers.drop_last().subrange(0, kept.len() as int) =~= teachers.subrange(
                0,
                kept.len() as int,
            ));
        } else {
            lemma_form_classes_conserves(course, teachers, students.drop_last());
            let kept = students_of(classes);
            assert(students.drop_last().subrange(0, kept.len() as int) =~= students.subrange(
                0,
                kept.len() as int,
            ));
        }
    }
}

/// Law: in a nonempty result every class carries the given course and a
/// student count within the course's bounds, and there are never more
/// classes than teachers. (An empty result makes both `forall`s vacuous.)
pub proof fn lemma_form_classes_within_bounds(
    course: CourseModel,
    teachers: Seq<Seq<char>>,
    students: Seq<Seq<char>>,
)
    ensures
        spec_form_classes(course, teachers, students).len() <= teachers.len(),
        forall|k: int|
            0 <= k < spec_form_classes(course, teachers, students).len() ==> {
                let class = #[trigger] spec_form_classes(course, teachers, students)[k];
                &&& class.course == course
                &&& course.min_students <= class.students.len() <= course.max_students
            },
    decreases teachers.len() + students.len(),
{
    if teachers.len() == 0 || students.len() == 0 {
    } else {
        let verdict = scan_verdict(
            course.min_students,
            course.max_students,
            distributed(course, teachers, students),
        );
        if verdict is AllWithinBounds {
            lemma_scan_all_within_bounds(
                course.min_students,
                course.max_students,
                distributed(course, teachers, students),
            );
        } else if verdict is BelowMinimum {
            lemma_form_classes_within_bounds(course, teachers.drop_last(), students);
        } else {
            lemma_form_classes_within_bounds(course, teachers, students.drop_last());
        }
    }
}

/// Law: the engine is idempotent on its own output. Re-running it on the
/// teachers and students of the formed classes returns those classes
/// unchanged. (On an empty result both rosters are empty and the re-run is
/// empty again.)
pub proof fn lemma_form_classes_stable(
    course: CourseModel,
    teachers: Seq<Seq<char>>,
    students: Seq<Seq<char>>,
)
    ensures
        spec_form_classes(
            course,
            teachers_of(spec_form_classes(course, teachers, students)),
            students_of(spec_form_classes(course, teachers, students)),
        ) == spec_form_classes(course, teachers, students),
    decreases teachers.len() + students.len(),
{
    let classes = spec_form_classes(course, teachers, students);
    if teachers.len() == 0 || students.len() == 0 {
        assert(teachers_of(classes) =~= Seq::<Seq<char>>::empty());
    } else {
        let verdict = scan_verdict(
            course.min_students,
            course.max_students,
            distributed(course, teachers, students),
        );
        if verdict is AllWithinBounds {
            lemma_teachers_of_distributed(course, teachers, students);
            lemma_students_of_distributed(course, teachers, students);
        } else if verdict is BelowMinimum {
            lemma_form_classes_stable(course, teachers.drop_last(), students);
        } else {
            lemma_form_classes_stable(course, teachers, students.drop_last());
        }
    }
}

} // verus!
