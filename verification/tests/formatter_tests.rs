use lyceumnstubot::date::CalendarDate;
use lyceumnstubot::formatter::NikaFormatter;
use lyceumnstubot::response::{
    ClassLesson, ClassTimetable, ClassWeek, LessonTimes, NikaResponse, Pair, Period, TeacherLesson,
    TeacherTimetable, TeacherWeek,
};

fn pair(key: &str, value: &str) -> Pair {
    Pair { key: key.to_string(), value: value.to_string() }
}

fn strings(items: &[&str]) -> Vec<String> {
    items.iter().map(|s| s.to_string()).collect()
}

fn class_lesson(id: &str, subjects: &[&str], rooms: &[&str], teachers: &[&str]) -> ClassLesson {
    ClassLesson {
        lesson_id: id.to_string(),
        subjects: strings(subjects),
        rooms: strings(rooms),
        teachers: strings(teachers),
    }
}

fn teacher_lesson(id: &str, subject: &str, room: Option<&str>, classes: Option<&[&str]>) -> TeacherLesson {
    TeacherLesson {
        lesson_id: id.to_string(),
        subject: subject.to_string(),
        room: room.map(|r| r.to_string()),
        classes: classes.map(strings),
    }
}

fn sample() -> NikaResponse {
    NikaResponse {
        classes: vec![pair("c1", "10А"), pair("c2", "10Б"), pair("c3", "11А")],
        class_courses: vec![pair("c1", "10"), pair("c2", "10"), pair("c3", "11")],
        teachers: vec![pair("t1", "Иванов И.И."), pair("t2", "Петров П.П.")],
        rooms: vec![pair("r1", "101"), pair("r2", "202")],
        subjects: vec![pair("s1", "Алгебра"), pair("s2", "Физика")],
        lesson_times: vec![
            LessonTimes { lesson: "1".to_string(), times: strings(&["08:30", "09:10"]) },
            LessonTimes { lesson: "2".to_string(), times: strings(&["09:20", "10:00"]) },
        ],
        day_names: strings(&["Понедельник", "Вторник", "Среда", "Четверг", "Пятница", "Суббота"]),
        periods: vec![Period { key: "p1".to_string(), begins: "02.09.2024".to_string() }],
        class_schedule: vec![ClassTimetable {
            key: "k".to_string(),
            classes: vec![
                ClassWeek {
                    class_id: "c1".to_string(),
                    lessons: vec![
                        class_lesson("101", &["s1"], &["r1"], &["t1"]),
                        class_lesson("102", &["s2", ""], &["r2", "r1"], &["t2", "t1"]),
                        class_lesson("201", &["s1"], &["r2"], &["t1"]),
                    ],
                },
                ClassWeek { class_id: "c2".to_string(), lessons: vec![] },
            ],
        }],
        teach_schedule: vec![TeacherTimetable {
            key: "k".to_string(),
            teachers: vec![TeacherWeek {
                teacher_id: "t1".to_string(),
                lessons: vec![
                    teacher_lesson("101", "s1", Some("r1"), Some(&["c1", "c3"])),
                    teacher_lesson("302", "s2", None, None),
                ],
            }],
        }],
    }
}

#[test]
fn class_schedule_groups_lessons_by_day() {
    let nika = sample();
    let text = NikaFormatter::format_class_schedule(&nika, "c1");
    let expected = "<i>Расписание для 10А:</i>\n\n\
<b>Понедельник / 03.09.2024:</b>\n\
1. 101: Алгебра | Иванов И.И. <code>08:30-09:10</code>\n\
2. <i>(Груп.1)</i> 202: Физика | Петров П.П. <code>09:20-10:00</code>\n\
2. <i>(Груп.2)</i> <b>нет занятий</b>\n\n\
<b>Вторник / 04.09.2024:</b>\n\
1. 202: Алгебра | Иванов И.И. <code>08:30-09:10</code>";
    assert_eq!(text, expected);
}

#[test]
fn try_format_agrees_with_format() {
    let nika = sample();
    assert_eq!(
        NikaFormatter::try_format_class_schedule(&nika, "c1"),
        Some(NikaFormatter::format_class_schedule(&nika, "c1"))
    );
}

#[test]
fn class_without_lessons_has_only_heading() {
    let nika = sample();
    assert_eq!(
        NikaFormatter::try_format_class_schedule(&nika, "c2"),
        Some("<i>Расписание для 10Б:</i>".to_string())
    );
}

#[test]
fn unknown_class_gives_none() {
    let nika = sample();
    assert_eq!(NikaFormatter::try_format_class_schedule(&nika, "c9"), None);
}

#[test]
fn signed_lesson_id_gives_none() {
    let mut nika = sample();
    nika.class_schedule[0].classes[0].lessons[0].lesson_id = "+101".to_string();
    assert_eq!(NikaFormatter::try_format_class_schedule(&nika, "c1"), None);
}

#[test]
fn day_zero_gives_none() {
    let mut nika = sample();
    nika.class_schedule[0].classes[0].lessons[0].lesson_id = "001".to_string();
    assert_eq!(NikaFormatter::try_format_class_schedule(&nika, "c1"), None);
}

#[test]
fn missing_room_gives_none() {
    let mut nika = sample();
    nika.rooms.clear();
    assert_eq!(NikaFormatter::try_format_class_schedule(&nika, "c1"), None);
}

#[test]
fn missing_lesson_times_gives_none() {
    let mut nika = sample();
    nika.lesson_times[1].times.truncate(1);
    assert_eq!(NikaFormatter::try_format_class_schedule(&nika, "c1"), None);
}

#[test]
fn unreadable_period_start_gives_none() {
    let mut nika = sample();
    nika.periods[0].begins = "2024-09-02".to_string();
    assert_eq!(NikaFormatter::try_format_class_schedule(&nika, "c1"), None);
    assert_eq!(NikaFormatter::try_format_teacher_schedule(&nika, "t1"), None);
}

#[test]
fn no_periods_gives_none() {
    let mut nika = sample();
    nika.periods.clear();
    assert_eq!(NikaFormatter::try_format_class_schedule(&nika, "c1"), None);
}

#[test]
fn lesson_number_is_id_modulo_hundred() {
    let mut nika = sample();
    nika.class_schedule[0].classes[0].lessons = vec![class_lesson("20000000101", &["s1"], &["r1"], &["t1"])];
    assert_eq!(NikaFormatter::try_format_class_schedule(&nika, "c1"), None);
    nika.class_schedule[0].classes[0].lessons = vec![class_lesson("2000000101", &["s1"], &["r1"], &["t1"])];
    assert_eq!(
        NikaFormatter::try_format_class_schedule(&nika, "c1"),
        Some("<i>Расписание для 10А:</i>\n\n<b>Вторник / 04.09.2024:</b>\n1. 101: Алгебра | Иванов И.И. <code>08:30-09:10</code>".to_string())
    );
}

#[test]
fn teacher_schedule_lists_rooms_and_classes() {
    let nika = sample();
    let text = NikaFormatter::format_teacher_schedule(&nika, "t1");
    let expected = "<i>Расписание для Иванов И.И.:</i>\n\n\
<b>Понедельник / 03.09.2024:</b>\n\
1. 101: Алгебра | 10А, 11А <code>08:30-09:10</code>\n\n\
<b>Среда / 05.09.2024:</b>\n\
2. -: Физика | - <code>09:20-10:00</code>";
    assert_eq!(text, expected);
}

#[test]
fn teacher_with_unknown_class_gives_none() {
    let mut nika = sample();
    nika.teach_schedule[0].teachers[0].lessons[0].classes = Some(strings(&["c7"]));
    assert_eq!(NikaFormatter::try_format_teacher_schedule(&nika, "t1"), None);
}

#[test]
fn render_uses_the_given_dates() {
    let nika = sample();
    let mut dates = vec![None; 10];
    dates[1] = Some(CalendarDate { year: 12345, month: 1, day: 5 });
    dates[2] = Some(CalendarDate { year: -7, month: 12, day: 31 });
    let text = NikaFormatter::render_class_schedule(&nika, "c1", &dates).unwrap();
    assert!(text.contains("<b>Понедельник / 05.01.+12345:</b>"));
    assert!(text.contains("<b>Вторник / 31.12.-0007:</b>"));
    dates[2] = None;
    assert_eq!(NikaFormatter::render_class_schedule(&nika, "c1", &dates), None);
}

#[test]
fn render_teacher_needs_day_name() {
    let mut nika = sample();
    nika.day_names.truncate(2);
    let dates = vec![Some(CalendarDate { year: 2024, month: 9, day: 2 }); 10];
    assert_eq!(NikaFormatter::render_teacher_schedule(&nika, "t1", &dates), None);
}

#[test]
fn messages_start_with_the_heading() {
    let nika = sample();
    assert!(NikaFormatter::format_class_schedule(&nika, "c1").starts_with("<i>Расписание для 10А:</i>"));
    assert!(NikaFormatter::format_teacher_schedule(&nika, "t1").starts_with("<i>Расписание для Иванов И.И.:</i>"));
}

#[test]
fn sample_is_well_formed() {
    let mut nika = sample();
    assert!(nika.is_well_formed());
    nika.class_schedule[0].classes[0].lessons.swap(0, 2);
    assert!(!nika.is_well_formed());
    let mut nika = sample();
    nika.rooms.push(pair("r2", "303"));
    assert!(!nika.is_well_formed());
}

#[test]
fn message_ignores_later_periods_and_other_classes() {
    let nika = sample();
    let before = NikaFormatter::format_class_schedule(&nika, "c1");
    let mut other = sample();
    other.periods.push(Period { key: "p2".to_string(), begins: "01.01.2025".to_string() });
    other.class_schedule[0].classes[1].lessons = vec![class_lesson("101", &["s2"], &["r2"], &["t2"])];
    other.class_schedule.push(ClassTimetable { key: "z".to_string(), classes: vec![] });
    assert!(other.is_well_formed());
    assert_eq!(NikaFormatter::format_class_schedule(&other, "c1"), before);
    let teacher_before = NikaFormatter::format_teacher_schedule(&nika, "t1");
    other.teach_schedule.push(TeacherTimetable { key: "z".to_string(), teachers: vec![] });
    assert_eq!(NikaFormatter::format_teacher_schedule(&other, "t1"), teacher_before);
}
