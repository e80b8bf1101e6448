//! What the bot answers: the prompts of its menus and where a pressed button leads.

use vstd::prelude::*;
use crate::keyboards::{keyboard_view, Button, Keyboard};
use crate::patterns::{
    class_data_pattern, class_data_regex, first_group, regex_compiles, regex_first_group,
    teacher_data_pattern,
    teacher_data_regex,
};
use crate::text::option_view;

verus! {

/// The two menus of the bot.
#[derive(Clone, Copy, Debug, PartialEq, Eq, Structural)]
pub enum Menu {
    Classes,
    Teachers,
}

/// Where the data of a pressed button leads.
#[derive(Debug)]
pub enum CallbackRoute {
    /// Show the timetable of this class.
    ClassSchedule(String),
    /// Show the timetable of this teacher.
    TeacherSchedule(String),
    /// Show the menu of classes again.
    ClassMenu,
    /// Show the menu of teachers again.
    TeacherMenu,
    /// Data that leads nowhere.
    Unrecognised,
    /// The button carried no data.
    NoData,
}

/// The data that leads back to the classes menu.
pub open spec fn class_menu_data() -> Seq<char> {
    "classSchedule"@
}

/// The data that leads back to the teachers menu.
pub open spec fn teacher_menu_data() -> Seq<char> {
    "teacherSchedule"@
}

/// `r` is where `data` leads, given group 1 of the first match of `class (.+)` in it
/// (`class_id`) and that of `teacher (.+)` (`teacher_id`): the class if there is one, else
/// the teacher, else one of the two menus by its exact name.
pub open spec fn route_of(data: Seq<char>, class_id: Option<Seq<char>>, teacher_id: Option<Seq<char>>, r: CallbackRoute) -> bool {
    match class_id {
        Some(id) => r matches CallbackRoute::ClassSchedule(x) && x@ == id,
        None => match teacher_id {
            Some(id) => r matches CallbackRoute::TeacherSchedule(x) && x@ == id,
            None => if data == class_menu_data() {
                r is ClassMenu
            } else if data == teacher_menu_data() {
                r is TeacherMenu
            } else {
                r is Unrecognised
            },
        },
    }
}

/// `r` is where the button data `data` leads, the patterns run by the regex crate.
pub open spec fn routes_to(data: Option<Seq<char>>, r: CallbackRoute) -> bool {
    match data {
        None => r is NoData,
        Some(d) => route_of(
            d,
            regex_first_group(class_data_pattern(), d),
            regex_first_group(teacher_data_pattern(), d),
            r,
        ),
    }
}

/// The prompt shown above a menu.
pub open spec fn menu_prompt_text(menu: Menu) -> Seq<char> {
    match menu {
        Menu::Classes => "Выберите класс:"@,
        Menu::Teachers => "Выберите учителя:"@,
    }
}

/// The label of the button that leads back to the classes menu.
pub open spec fn back_label() -> Seq<char> {
    "Назад ⬅️"@
}

/// The prompt shown above a menu.
pub fn menu_prompt(menu: Menu) -> (s: String)
    ensures
        s@ == menu_prompt_text(menu),
{
    let mut s = String::new();
    match menu {
        Menu::Classes => s.append("Выберите класс:"),
        Menu::Teachers => s.append("Выберите учителя:"),
    }
    s
}

/// The answer to a message that names no command of the bot.
pub fn unknown_command_reply() -> (s: String)
    ensures
        s@ == "Команда не найдена!"@,
{
    let mut s = String::new();
    s.append("Команда не найдена!");
    s
}

/// The answer to a pressed button that carried no data.
pub fn missing_data_reply() -> (s: String)
    ensures
        s@ == "Что-то пошло не так"@,
{
    let mut s = String::new();
    s.append("Что-то пошло не так");
    s
}

/// The keyboard under a class timetable: one button back to the classes menu.
pub fn back_to_classes_keyboard() -> (k: Keyboard)
    ensures
        keyboard_view(k) == seq![seq![(back_label(), class_menu_data())]],
{
    let mut text = String::new();
    text.append("Назад ⬅️");
    let mut data = String::new();
    data.append("classSchedule");
    let mut row: Vec<Button> = Vec::new();
    row.push(Button { text, callback_data: data });
    assert(crate::keyboards::button_views(row@) =~= seq![(back_label(), class_menu_data())]);
    let mut rows: Vec<Vec<Button>> = Vec::new();
    rows.push(row);
    let k = Keyboard { rows };
    assert(keyboard_view(k) =~= seq![seq![(back_label(), class_menu_data())]]);
    k
}

/// Where the data of a pressed button leads, given what the searches for `class (.+)` and
/// `teacher (.+)` found in it.
pub fn route_from_groups(data: &str, class_id: Option<String>, teacher_id: Option<String>) -> (r: CallbackRoute)
    ensures
        route_of(data@, option_view(class_id), option_view(teacher_id), r),
{
    if let Some(id) = class_id {
        return CallbackRoute::ClassSchedule(id);
    }
    if let Some(id) = teacher_id {
        return CallbackRoute::TeacherSchedule(id);
    }
    let text = String::from_str(data);
    let mut class_menu = String::new();
    class_menu.append("classSchedule");
    if text == class_menu {
        return CallbackRoute::ClassMenu;
    }
    let mut teacher_menu = String::new();
    teacher_menu.append("teacherSchedule");
    if text == teacher_menu {
        return CallbackRoute::TeacherMenu;
    }
    CallbackRoute::Unrecognised
}

/// Where the data of a pressed button leads. Both patterns are compiled first; an error in
/// compiling them comes back as it is.
pub fn route_callback(data: Option<&str>) -> (r: Result<CallbackRoute, regex::Error>)
    ensures
        r is Ok <==> regex_compiles(class_data_pattern()) && regex_compiles(teacher_data_pattern()),
        r matches Ok(route) ==> routes_to(
            match data {
                Some(d) => Some(d@),
                None => None,
            },
            route,
        ),
{
    let class_re = match class_data_regex() {
        Ok(re) => re,
        Err(e) => return Err(e),
    };
    let teacher_re = match teacher_data_regex() {
        Ok(re) => re,
        Err(e) => return Err(e),
    };
    let d = match data {
        Some(d) => d,
        None => return Ok(CallbackRoute::NoData),
    };
    let class_id = first_group(&class_re, d);
    let teacher_id = first_group(&teacher_re, d);
    Ok(route_from_groups(d, class_id, teacher_id))
}

} // verus!
