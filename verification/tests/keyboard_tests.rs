use lyceumnstubot::bot::{
    back_to_classes_keyboard, menu_prompt, missing_data_reply, route_callback, route_from_groups, unknown_command_reply,
    CallbackRoute, Menu,
};
use lyceumnstubot::keyboards::{make_classes_keyboard, make_teachers_keyboard, Keyboard, KeyboardMakerError};
use lyceumnstubot::response::{NikaResponse, Pair};

fn pair(key: &str, value: &str) -> Pair {
    Pair { key: key.to_string(), value: value.to_string() }
}

fn response(classes: Vec<Pair>, courses: Vec<Pair>, teachers: Vec<Pair>) -> NikaResponse {
    NikaResponse {
        classes,
        class_courses: courses,
        teachers,
        rooms: vec![],
        subjects: vec![],
        lesson_times: vec![],
        day_names: vec![],
        periods: vec![],
        class_schedule: vec![],
        teach_schedule: vec![],
    }
}

fn layout(k: &Keyboard) -> Vec<Vec<(String, String)>> {
    k.rows
        .iter()
        .map(|row| row.iter().map(|b| (b.text.clone(), b.callback_data.clone())).collect())
        .collect()
}

fn route_callback_ok(data: Option<&str>) -> CallbackRoute {
    match route_callback(data) {
        Ok(route) => route,
        Err(_) => panic!("patterns do not compile"),
    }
}

fn b(text: &str, data: &str) -> (String, String) {
    (text.to_string(), data.to_string())
}

#[test]
fn classes_keyboard_groups_consecutive_courses() {
    let nika = response(
        vec![pair("1", "5А"), pair("2", "5Б"), pair("3", "6А"), pair("4", "5В")],
        vec![pair("1", "5"), pair("2", "5"), pair("3", "6"), pair("4", "5")],
        vec![],
    );
    let k = match make_classes_keyboard(&nika) {
        Ok(k) => k,
        Err(_) => panic!("keyboard refused"),
    };
    assert_eq!(
        layout(&k),
        vec![
            vec![b("5А", "class 1"), b("5Б", "class 2")],
            vec![b("6А", "class 3")],
            vec![b("5В", "class 4")],
        ]
    );
}

#[test]
fn classes_keyboard_of_no_classes_is_empty() {
    let nika = response(vec![], vec![], vec![]);
    let k = make_classes_keyboard(&nika).ok().unwrap();
    assert!(k.rows.is_empty());
}

#[test]
fn teachers_keyboard_sorts_by_name_in_rows_of_three() {
    let nika = response(
        vec![],
        vec![],
        vec![
            pair("a", "Сидоров"),
            pair("b", "Андреев"),
            pair("c", "Борисов"),
            pair("d", "Андреев"),
            pair("e", "Яковлев"),
        ],
    );
    let k = make_teachers_keyboard(&nika);
    assert_eq!(
        layout(&k),
        vec![
            vec![b("Андреев", "teacher b"), b("Андреев", "teacher d"), b("Борисов", "teacher c")],
            vec![b("Сидоров", "teacher a"), b("Яковлев", "teacher e")],
        ]
    );
}

#[test]
fn teachers_keyboard_orders_by_code_point() {
    let nika = response(vec![], vec![], vec![pair("1", "b"), pair("2", "B"), pair("3", "Ab"), pair("4", "A")]);
    let k = make_teachers_keyboard(&nika);
    assert_eq!(
        layout(&k),
        vec![vec![b("A", "teacher 4"), b("Ab", "teacher 3"), b("B", "teacher 2")], vec![b("b", "teacher 1")]]
    );
}

#[test]
fn keyboard_error_message() {
    assert_eq!(KeyboardMakerError::GradeParsing.message(), "couldn't parse grade");
    let err = regex::Regex::new("(").unwrap_err();
    let text = err.to_string();
    assert_eq!(KeyboardMakerError::from(err).message(), text);
}

#[test]
fn routes_from_found_groups() {
    assert!(matches!(
        route_from_groups("x", Some("5".to_string()), Some("6".to_string())),
        CallbackRoute::ClassSchedule(ref id) if id == "5"
    ));
    assert!(matches!(
        route_from_groups("x", None, Some("6".to_string())),
        CallbackRoute::TeacherSchedule(ref id) if id == "6"
    ));
    assert!(matches!(route_from_groups("classSchedule", None, None), CallbackRoute::ClassMenu));
    assert!(matches!(route_from_groups("teacherSchedule", None, None), CallbackRoute::TeacherMenu));
    assert!(matches!(route_from_groups("classSchedule ", None, None), CallbackRoute::Unrecognised));
}

#[test]
fn class_button_data_routes_to_class() {
    match route_callback_ok(Some("class 10А")) {
        CallbackRoute::ClassSchedule(id) => assert_eq!(id, "10А"),
        _ => panic!("wrong route"),
    }
}

#[test]
fn teacher_button_data_routes_to_teacher() {
    match route_callback_ok(Some("teacher 42")) {
        CallbackRoute::TeacherSchedule(id) => assert_eq!(id, "42"),
        _ => panic!("wrong route"),
    }
}

#[test]
fn class_marker_is_searched_anywhere_up_to_line_end() {
    match route_callback_ok(Some("xclass a b\nc")) {
        CallbackRoute::ClassSchedule(id) => assert_eq!(id, "a b"),
        _ => panic!("wrong route"),
    }
    match route_callback_ok(Some("teacher class 7")) {
        CallbackRoute::ClassSchedule(id) => assert_eq!(id, "7"),
        _ => panic!("wrong route"),
    }
}

#[test]
fn menu_data_routes_to_menus() {
    assert!(matches!(route_callback_ok(Some("classSchedule")), CallbackRoute::ClassMenu));
    assert!(matches!(route_callback_ok(Some("teacherSchedule")), CallbackRoute::TeacherMenu));
    assert!(matches!(route_callback_ok(Some("class ")), CallbackRoute::Unrecognised));
    assert!(matches!(route_callback_ok(Some("class \nx")), CallbackRoute::Unrecognised));
    assert!(matches!(route_callback_ok(None), CallbackRoute::NoData));
}

#[test]
fn back_keyboard_leads_to_class_menu() {
    let k = back_to_classes_keyboard();
    assert_eq!(layout(&k), vec![vec![b("Назад ⬅️", "classSchedule")]]);
    assert!(matches!(route_callback_ok(Some(&k.rows[0][0].callback_data)), CallbackRoute::ClassMenu));
}

#[test]
fn reply_texts() {
    assert_eq!(menu_prompt(Menu::Classes), "Выберите класс:");
    assert_eq!(menu_prompt(Menu::Teachers), "Выберите учителя:");
    assert_eq!(unknown_command_reply(), "Команда не найдена!");
    assert_eq!(missing_data_reply(), "Что-то пошло не так");
}

#[test]
fn every_class_button_routes_to_its_class() {
    let nika = response(
        vec![pair("c1", "7А"), pair("c2", "7Б"), pair("c3", "8А")],
        vec![pair("c1", "7"), pair("c2", "7"), pair("c3", "8")],
        vec![pair("t9", "Орлова"), pair("t1", "Белова")],
    );
    let classes = make_classes_keyboard(&nika).ok().unwrap();
    let mut seen = Vec::new();
    for row in &classes.rows {
        for button in row {
            match route_callback_ok(Some(&button.callback_data)) {
                CallbackRoute::ClassSchedule(id) => seen.push((id, button.text.clone())),
                _ => panic!("wrong route"),
            }
        }
    }
    assert_eq!(
        seen,
        vec![
            ("c1".to_string(), "7А".to_string()),
            ("c2".to_string(), "7Б".to_string()),
            ("c3".to_string(), "8А".to_string())
        ]
    );
    let teachers = make_teachers_keyboard(&nika);
    let routed: Vec<String> = teachers.rows[0]
        .iter()
        .map(|b| match route_callback_ok(Some(&b.callback_data)) {
            CallbackRoute::TeacherSchedule(id) => id,
            _ => panic!("wrong route"),
        })
        .collect();
    assert_eq!(routed, vec!["t1".to_string(), "t9".to_string()]);
}
