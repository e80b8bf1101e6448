//! Rendering of class and teacher timetables as Telegram HTML messages.
//!
//! A message starts with a heading that names the class or teacher, followed by one block
//! per run of lesson slots on the same day. The day of a slot is the first digit of its
//! identifier and the lesson number is the identifier's value modulo 100; the date of day
//! `d` lies `d` days after the first day of the first period.

use vstd::prelude::*;
use crate::date::{
    add_days, date_plus_days, day_month_year_text, format_day_month_year, month_and_day_in_range,
    parse_day_month_year, parsed_day_month_year, CalendarDate,
};
use crate::grouping::{run_items, runs, runs_are_maximal, runs_cover_items};
use crate::response::{
    find_entry, find_value, lookup, lookup_value, ClassLesson, NikaResponse,
    TeacherLesson,
};
use crate::text::{
    decimal_string, decimal_text, digit_of, join_strings, option_view, push_decimal, parse_unsigned_i32,
    seq_join, seq_join_starts_with_first, string_views, unsigned_i32_value,
};

verus! {

/// Renders timetables.
pub struct NikaFormatter {}

/// Lesson number and day of a lesson slot identifier: the identifier must be digits only
/// with a value that fits in an `i32`; the number is that value modulo 100 and the day the
/// value of its first digit.
pub open spec fn lesson_number_and_day(id: Seq<char>) -> Option<(nat, nat)> {
    match unsigned_i32_value(id) {
        Some(v) => Some((v % 100, digit_of(id[0]))),
        None => None,
    }
}

/// Start and end time of lesson number `number`.
pub open spec fn lesson_time_range(nika: NikaResponse, number: nat) -> Option<(Seq<char>, Seq<char>)> {
    match lookup(nika.lesson_times@, decimal_text(number)) {
        Some(entry) => if entry.times@.len() >= 2 {
            Some((entry.times@[0]@, entry.times@[1]@))
        } else {
            None
        },
        None => None,
    }
}

/// The text written for a group without a lesson.
pub open spec fn free_slot_text() -> Seq<char> {
    "<b>нет занятий</b>"@
}

/// What a class's group `g` has in slot `lesson`: room, subject, teacher and times.
pub open spec fn class_group_text(nika: NikaResponse, lesson: ClassLesson, number: nat, g: int) -> Option<Seq<char>> {
    if g >= lesson.rooms@.len() {
        None
    } else if lesson.rooms@[g]@.len() == 0 || lesson.subjects@[g]@.len() == 0 {
        Some(free_slot_text())
    } else if g >= lesson.teachers@.len() {
        None
    } else if lesson.teachers@[g]@.len() == 0 {
        Some(free_slot_text())
    } else {
        match (
            lookup_value(nika.rooms@, lesson.rooms@[g]@),
            lookup_value(nika.subjects@, lesson.subjects@[g]@),
            lookup_value(nika.teachers@, lesson.teachers@[g]@),
            lesson_time_range(nika, number),
        ) {
            (Some(room), Some(subject), Some(teacher), Some(times)) => Some(
                room + ": "@ + subject + " | "@ + teacher + " <code>"@ + times.0 + "-"@ + times.1
                    + "</code>"@,
            ),
            _ => None,
        }
    }
}

/// The label of group `g` of `groups` in a class's slot with lesson number `number`.
pub open spec fn class_group_tag(number: nat, groups: nat, g: int) -> Seq<char> {
    if groups == 1 {
        decimal_text(number) + "."@
    } else {
        decimal_text(number) + ". <i>(Груп."@ + decimal_text((g + 1) as nat) + ")</i>"@
    }
}

/// The line of group `g` in a class's slot.
pub open spec fn class_group_line(nika: NikaResponse, lesson: ClassLesson, number: nat, g: int) -> Option<Seq<char>> {
    match class_group_text(nika, lesson, number, g) {
        Some(text) => Some(class_group_tag(number, lesson.subjects@.len(), g) + " "@ + text),
        None => None,
    }
}

/// The lines of the first `count` groups of a class's slot.
pub open spec fn class_group_lines(nika: NikaResponse, lesson: ClassLesson, number: nat, count: nat) -> Option<Seq<Seq<char>>>
    decreases count,
{
    if count == 0 {
        Some(Seq::empty())
    } else {
        match (
            class_group_lines(nika, lesson, number, (count - 1) as nat),
            class_group_line(nika, lesson, number, count - 1),
        ) {
            (Some(lines), Some(line)) => Some(lines.push(line)),
            _ => None,
        }
    }
}

/// Day and text of a class's lesson slot: one line per group.
pub open spec fn class_lesson_entry(nika: NikaResponse, lesson: ClassLesson) -> Option<(nat, Seq<char>)> {
    match lesson_number_and_day(lesson.lesson_id@) {
        Some((number, day)) => match class_group_lines(nika, lesson, number, lesson.subjects@.len()) {
            Some(lines) => Some((day, seq_join(lines, "\n"@))),
            None => None,
        },
        None => None,
    }
}

/// Day and text of each of a class's lesson slots.
pub open spec fn class_lesson_entries(nika: NikaResponse, lessons: Seq<ClassLesson>) -> Option<Seq<(nat, Seq<char>)>>
    decreases lessons.len(),
{
    if lessons.len() == 0 {
        Some(Seq::empty())
    } else {
        match (class_lesson_entries(nika, lessons.drop_last()), class_lesson_entry(nika, lessons.last())) {
            (Some(entries), Some(entry)) => Some(entries.push(entry)),
            _ => None,
        }
    }
}

/// The block of one day: its name and date in bold, then the texts of its slots.
pub open spec fn day_block(nika: NikaResponse, dates: Seq<Option<CalendarDate>>, day: nat, texts: Seq<Seq<char>>) -> Option<Seq<char>> {
    if 1 <= day <= nika.day_names@.len() && day < dates.len() && dates[day as int] is Some {
        Some(
            "<b>"@ + nika.day_names@[day - 1]@ + " / "@ + day_month_year_text(dates[day as int]->0)
                + ":</b>\n"@ + seq_join(texts, "\n"@),
        )
    } else {
        None
    }
}

/// The blocks of consecutive runs of slots on the same day.
pub open spec fn day_blocks(nika: NikaResponse, dates: Seq<Option<CalendarDate>>, days: Seq<(nat, Seq<Seq<char>>)>) -> Option<Seq<Seq<char>>>
    decreases days.len(),
{
    if days.len() == 0 {
        Some(Seq::empty())
    } else {
        match (day_blocks(nika, dates, days.drop_last()), day_block(nika, dates, days.last().0, days.last().1)) {
            (Some(blocks), Some(block)) => Some(blocks.push(block)),
            _ => None,
        }
    }
}

/// The heading of a timetable message.
pub open spec fn schedule_heading(name: Seq<char>) -> Seq<char> {
    "<i>Расписание для "@ + name + ":</i>"@
}

/// A timetable message: the heading, then the day blocks, separated by blank lines.
pub open spec fn schedule_message(name: Seq<char>, blocks: Seq<Seq<char>>) -> Seq<char> {
    seq_join(seq![schedule_heading(name)] + blocks, "\n\n"@)
}

/// The timetable message of class `class_id`, with `dates[d]` the date of day `d`; `None`
/// where a slot, a name, a day or a date that it needs is missing or malformed.
pub open spec fn class_schedule_text(nika: NikaResponse, class_id: Seq<char>, dates: Seq<Option<CalendarDate>>) -> Option<Seq<char>> {
    if nika.class_schedule@.len() == 0 {
        None
    } else {
        match lookup(nika.class_schedule@[0].classes@, class_id) {
            Some(week) => match class_lesson_entries(nika, week.lessons@) {
                Some(entries) => match day_blocks(nika, dates, runs(entries)) {
                    Some(blocks) => match lookup_value(nika.classes@, class_id) {
                        Some(name) => Some(schedule_message(name, blocks)),
                        None => None,
                    },
                    None => None,
                },
                None => None,
            },
            None => None,
        }
    }
}

/// The dates of days 0 to 9 counted from the first day of the first period, as chrono
/// reads and steps them; `None` without a first period whose start chrono can read.
pub open spec fn week_dates(nika: NikaResponse) -> Option<Seq<Option<CalendarDate>>> {
    if nika.periods@.len() == 0 {
        None
    } else {
        match parsed_day_month_year(nika.periods@[0].begins@) {
            Some(start) => Some(Seq::new(10, |d: int| date_plus_days(start, d))),
            None => None,
        }
    }
}

/// The timetable message of a class, dated from the first period.
pub open spec fn class_schedule_message(nika: NikaResponse, class_id: Seq<char>) -> Option<Seq<char>> {
    match week_dates(nika) {
        Some(dates) => class_schedule_text(nika, class_id, dates),
        None => None,
    }
}

/// The names of the classes `ids`, in order.
pub open spec fn class_names(nika: NikaResponse, ids: Seq<String>) -> Option<Seq<Seq<char>>>
    decreases ids.len(),
{
    if ids.len() == 0 {
        Some(Seq::empty())
    } else {
        match (class_names(nika, ids.drop_last()), lookup_value(nika.classes@, ids.last()@)) {
            (Some(names), Some(name)) => Some(names.push(name)),
            _ => None,
        }
    }
}

/// The room of a teacher's slot, or `-` where none is given.
pub open spec fn teacher_room_text(nika: NikaResponse, lesson: TeacherLesson) -> Option<Seq<char>> {
    match lesson.room {
        Some(room) => lookup_value(nika.rooms@, room@),
        None => Some("-"@),
    }
}

/// The classes of a teacher's slot joined by `, `, or `-` where none are given.
pub open spec fn teacher_classes_text(nika: NikaResponse, lesson: TeacherLesson) -> Option<Seq<char>> {
    match lesson.classes {
        Some(ids) => match class_names(nika, ids@) {
            Some(names) => Some(seq_join(names, ", "@)),
            None => None,
        },
        None => Some("-"@),
    }
}

/// Day and text of a teacher's lesson slot.
pub open spec fn teacher_lesson_entry(nika: NikaResponse, lesson: TeacherLesson) -> Option<(nat, Seq<char>)> {
    match lesson_number_and_day(lesson.lesson_id@) {
        Some((number, day)) => match (
            lookup_value(nika.subjects@, lesson.subject@),
            lesson_time_range(nika, number),
            teacher_room_text(nika, lesson),
            teacher_classes_text(nika, lesson),
        ) {
            (Some(subject), Some(times), Some(room), Some(classes)) => Some(
                (
                    day,
                    decimal_text(number) + ". "@ + room + ": "@ + subject + " | "@ + classes
                        + " <code>"@ + times.0 + "-"@ + times.1 + "</code>"@,
                ),
            ),
            _ => None,
        },
        None => None,
    }
}

/// Day and text of each of a teacher's lesson slots.
pub open spec fn teacher_lesson_entries(nika: NikaResponse, lessons: Seq<TeacherLesson>) -> Option<Seq<(nat, Seq<char>)>>
    decreases lessons.len(),
{
    if lessons.len() == 0 {
        Some(Seq::empty())
    } else {
        match (teacher_lesson_entries(nika, lessons.drop_last()), teacher_lesson_entry(nika, lessons.last())) {
            (Some(entries), Some(entry)) => Some(entries.push(entry)),
            _ => None,
        }
    }
}

/// The timetable message of teacher `teacher_id`, with `dates[d]` the date of day `d`.
pub open spec fn teacher_schedule_text(nika: NikaResponse, teacher_id: Seq<char>, dates: Seq<Option<CalendarDate>>) -> Option<Seq<char>> {
    if nika.teach_schedule@.len() == 0 {
        None
    } else {
        match lookup(nika.teach_schedule@[0].teachers@, teacher_id) {
            Some(week) => match teacher_lesson_entries(nika, week.lessons@) {
                Some(entries) => match day_blocks(nika, dates, runs(entries)) {
                    Some(blocks) => match lookup_value(nika.teachers@, teacher_id) {
                        Some(name) => Some(schedule_message(name, blocks)),
                        None => None,
                    },
                    None => None,
                },
                None => None,
            },
            None => None,
        }
    }
}

/// The timetable message of a teacher, dated from the first period.
pub open spec fn teacher_schedule_message(nika: NikaResponse, teacher_id: Seq<char>) -> Option<Seq<char>> {
    match week_dates(nika) {
        Some(dates) => teacher_schedule_text(nika, teacher_id, dates),
        None => None,
    }
}

/// Every date that is given has the month and day ranges of a chrono date.
pub open spec fn dates_in_range(dates: Seq<Option<CalendarDate>>) -> bool {
    forall|d: int| 0 <= d < dates.len() ==> (#[trigger] dates[d] matches Some(x) ==> month_and_day_in_range(x))
}

/// A group line that fails makes every longer run of group lines fail.
proof fn lemma_group_lines_fail(nika: NikaResponse, lesson: ClassLesson, number: nat, k: nat, n: nat)
    requires
        k <= n,
        class_group_lines(nika, lesson, number, k) is None,
    ensures
        class_group_lines(nika, lesson, number, n) is None,
    decreases n - k,
{
    if k < n {
        lemma_group_lines_fail(nika, lesson, number, k + 1, n);
    }
}

/// A slot that fails makes the whole list of slots fail.
proof fn lemma_class_entries_fail(nika: NikaResponse, lessons: Seq<ClassLesson>, k: int)
    requires
        0 <= k <= lessons.len(),
        class_lesson_entries(nika, lessons.take(k)) is None,
    ensures
        class_lesson_entries(nika, lessons) is None,
    decreases lessons.len() - k,
{
    if k < lessons.len() {
        assert(lessons.take(k + 1).drop_last() =~= lessons.take(k));
        lemma_class_entries_fail(nika, lessons, k + 1);
    } else {
        assert(lessons.take(k) =~= lessons);
    }
}

/// A day block that fails makes the whole list of blocks fail.
proof fn lemma_day_blocks_fail(nika: NikaResponse, dates: Seq<Option<CalendarDate>>, days: Seq<(nat, Seq<Seq<char>>)>, k: int)
    requires
        0 <= k <= days.len(),
        day_blocks(nika, dates, days.take(k)) is None,
    ensures
        day_blocks(nika, dates, days) is None,
    decreases days.len() - k,
{
    if k < days.len() {
        assert(days.take(k + 1).drop_last() =~= days.take(k));
        lemma_day_blocks_fail(nika, dates, days, k + 1);
    } else {
        assert(days.take(k) =~= days);
    }
}

/// A slot that fails makes the whole list of slots fail.
proof fn lemma_teacher_entries_fail(nika: NikaResponse, lessons: Seq<TeacherLesson>, k: int)
    requires
        0 <= k <= lessons.len(),
        teacher_lesson_entries(nika, lessons.take(k)) is None,
    ensures
        teacher_lesson_entries(nika, lessons) is None,
    decreases lessons.len() - k,
{
    if k < lessons.len() {
        assert(lessons.take(k + 1).drop_last() =~= lessons.take(k));
        lemma_teacher_entries_fail(nika, lessons, k + 1);
    } else {
        assert(lessons.take(k) =~= lessons);
    }
}

/// A class that has no name makes the whole list of names fail.
proof fn lemma_class_names_fail(nika: NikaResponse, ids: Seq<String>, k: int)
    requires
        0 <= k <= ids.len(),
        class_names(nika, ids.take(k)) is None,
    ensures
        class_names(nika, ids) is None,
    decreases ids.len() - k,
{
    if k < ids.len() {
        assert(ids.take(k + 1).drop_last() =~= ids.take(k));
        lemma_class_names_fail(nika, ids, k + 1);
    } else {
        assert(ids.take(k) =~= ids);
    }
}

/// Entries by their views.
pub open spec fn entry_views(entries: Seq<(u32, String)>) -> Seq<(nat, Seq<char>)> {
    entries.map_values(|e: (u32, String)| (e.0 as nat, e.1@))
}

/// Runs by their views.
pub open spec fn day_run_views(days: Seq<(u32, Vec<String>)>) -> Seq<(nat, Seq<Seq<char>>)> {
    days.map_values(|r: (u32, Vec<String>)| (r.0 as nat, string_views(r.1@)))
}

/// Groups consecutive entries of the same day.
fn group_by_day(entries: &Vec<(u32, String)>) -> (days: Vec<(u32, Vec<String>)>)
    ensures
        day_run_views(days@) == runs(entry_views(entries@)),
{
    let ghost items = entry_views(entries@);
    let mut done: Vec<(u32, Vec<String>)> = Vec::new();
    let mut cur_day: u32 = 0;
    let mut cur: Vec<String> = Vec::new();
    let mut i: usize = 0;
    while i < entries.len()
        invariant
            i <= entries@.len(),
            items == entry_views(entries@),
            i == 0 ==> done@.len() == 0,
            i > 0 ==> runs(items.take(i as int)) == day_run_views(done@).push(
                (cur_day as nat, string_views(cur@)),
            ),
        decreases entries@.len() - i,
    {
        let day = entries[i].0;
        let text = entries[i].1.clone();
        proof {
            assert(items.take(i + 1).drop_last() =~= items.take(i as int));
            assert(items.take(i + 1).last() == (day as nat, text@));
        }
        if i > 0 && day == cur_day {
            let ghost before = cur@;
            cur.push(text);
            proof {
                assert(string_views(cur@) =~= string_views(before).push(text@));
            }
        } else {
            let ghost done_before = done@;
            if i > 0 {
                done.push((cur_day, cur));
                proof {
                    assert(day_run_views(done@) =~= day_run_views(done_before).push(
                        (cur_day as nat, string_views(cur@)),
                    ));
                }
            } else {
                assert(runs(items.take(0)) =~= Seq::<(nat, Seq<Seq<char>>)>::empty());
                assert(day_run_views(done@) =~= Seq::<(nat, Seq<Seq<char>>)>::empty());
            }
            cur_day = day;
            cur = Vec::new();
            cur.push(text);
            proof {
                assert(string_views(cur@) =~= seq![text@]);
            }
        }
        i = i + 1;
    }
    if i > 0 {
        let ghost done_before = done@;
        done.push((cur_day, cur));
        proof {
            assert(day_run_views(done@) =~= day_run_views(done_before).push(
                (cur_day as nat, string_views(cur@)),
            ));
        }
    } else {
        assert(day_run_views(done@) =~= runs(items));
    }
    assert(items.take(i as int) =~= items);
    done
}

/// Start and end time of lesson number `number`.
fn find_lesson_times<'a>(nika: &'a NikaResponse, number: u32) -> (r: Option<(&'a String, &'a String)>)
    ensures
        match r {
            Some(t) => lesson_time_range(*nika, number as nat) == Some((t.0@, t.1@)),
            None => lesson_time_range(*nika, number as nat) is None,
        },
{
    let key = decimal_string(number as u64);
    match find_entry(&nika.lesson_times, &key) {
        Some(i) => {
            let entry = &nika.lesson_times[i];
            if entry.times.len() >= 2 {
                Some((&entry.times[0], &entry.times[1]))
            } else {
                None
            }
        },
        None => None,
    }
}

/// The line of group `g` in a class's slot.
fn render_class_group_line(nika: &NikaResponse, lesson: &ClassLesson, number: u32, g: usize) -> (r: Option<String>)
    requires
        g < lesson.subjects@.len(),
    ensures
        option_view(r) == class_group_line(*nika, *lesson, number as nat, g as int),
{
    let mut text = String::new();
    if g >= lesson.rooms.len() {
        return None;
    }
    if lesson.rooms[g].as_str().is_empty() || lesson.subjects[g].as_str().is_empty() {
        text.append("<b>нет занятий</b>");
    } else {
        if g >= lesson.teachers.len() {
            return None;
        }
        if lesson.teachers[g].as_str().is_empty() {
            text.append("<b>нет занятий</b>");
        } else {
            let room = match find_value(&nika.rooms, &lesson.rooms[g]) {
                Some(v) => v,
                None => return None,
            };
            let subject = match find_value(&nika.subjects, &lesson.subjects[g]) {
                Some(v) => v,
                None => return None,
            };
            let teacher = match find_value(&nika.teachers, &lesson.teachers[g]) {
                Some(v) => v,
                None => return None,
            };
            let times = match find_lesson_times(nika, number) {
                Some(t) => t,
                None => return None,
            };
            text.append(room.as_str());
            text.append(": ");
            text.append(subject.as_str());
            text.append(" | ");
            text.append(teacher.as_str());
            text.append(" <code>");
            text.append(times.0.as_str());
            text.append("-");
            text.append(times.1.as_str());
            text.append("</code>");
        }
    }
    let mut line = String::new();
    push_decimal(&mut line, number as u64);
    if lesson.subjects.len() == 1 {
        line.append(".");
    } else {
        line.append(". <i>(Груп.");
        push_decimal(&mut line, (g as u64) + 1);
        line.append(")</i>");
    }
    line.append(" ");
    line.append(text.as_str());
    assert(line@ =~= class_group_line(*nika, *lesson, number as nat, g as int)->0);
    Some(line)
}

/// Day and text of a class's lesson slot.
fn render_class_lesson(nika: &NikaResponse, lesson: &ClassLesson) -> (r: Option<(u32, String)>)
    ensures
        match r {
            Some(e) => class_lesson_entry(*nika, *lesson) == Some((e.0 as nat, e.1@)),
            None => class_lesson_entry(*nika, *lesson) is None,
        },
{
    let value = match parse_unsigned_i32(&lesson.lesson_id) {
        Some(v) => v,
        None => return None,
    };
    let first = lesson.lesson_id.as_str().get_char(0);
    let day: u32 = (first as u32) - ('0' as u32);
    let number: u32 = value % 100;
    assert('0' <= lesson.lesson_id@[0] <= '9');
    assert(lesson_number_and_day(lesson.lesson_id@) == Some((number as nat, day as nat)));
    let mut lines: Vec<String> = Vec::new();
    let mut g: usize = 0;
    while g < lesson.subjects.len()
        invariant
            g <= lesson.subjects@.len(),
            lesson_number_and_day(lesson.lesson_id@) == Some((number as nat, day as nat)),
            class_group_lines(*nika, *lesson, number as nat, g as nat) == Some(string_views(lines@)),
        decreases lesson.subjects@.len() - g,
    {
        let ghost before = lines@;
        match render_class_group_line(nika, lesson, number, g) {
            Some(line) => {
                lines.push(line);
                proof {
                    assert(string_views(lines@) =~= string_views(before).push(lines@.last()@));
                }
            },
            None => {
                proof {
                    assert(class_group_lines(*nika, *lesson, number as nat, (g + 1) as nat) is None);
                    lemma_group_lines_fail(*nika, *lesson, number as nat, (g + 1) as nat, lesson.subjects@.len());
                }
                return None;
            },
        }
        g = g + 1;
    }
    let text = join_strings(&lines, "\n");
    Some((day, text))
}

/// The day blocks of a timetable.
fn render_day_blocks(nika: &NikaResponse, dates: &Vec<Option<CalendarDate>>, days: &Vec<(u32, Vec<String>)>) -> (r: Option<Vec<String>>)
    requires
        dates_in_range(dates@),
    ensures
        match r {
            Some(blocks) => day_blocks(*nika, dates@, day_run_views(days@)) == Some(string_views(blocks@)),
            None => day_blocks(*nika, dates@, day_run_views(days@)) is None,
        },
{
    let ghost runs_view = day_run_views(days@);
    let mut blocks: Vec<String> = Vec::new();
    let mut i: usize = 0;
    while i < days.len()
        invariant
            i <= days@.len(),
            runs_view == day_run_views(days@),
            dates_in_range(dates@),
            day_blocks(*nika, dates@, runs_view.take(i as int)) == Some(string_views(blocks@)),
        decreases days@.len() - i,
    {
        proof {
            assert(runs_view.take(i + 1).drop_last() =~= runs_view.take(i as int));
        }
        let day = days[i].0;
        if day < 1 || day as usize > nika.day_names.len() || day as usize >= dates.len() {
            proof {
                lemma_day_blocks_fail(*nika, dates@, runs_view, i + 1);
            }
            return None;
        }
        let date = match dates[day as usize] {
            Some(d) => d,
            None => {
                proof {
                    lemma_day_blocks_fail(*nika, dates@, runs_view, i + 1);
                }
                return None;
            },
        };
        assert(dates@[day as int] matches Some(x) ==> month_and_day_in_range(x));
        let mut block = String::new();
        block.append("<b>");
        block.append(nika.day_names[(day - 1) as usize].as_str());
        block.append(" / ");
        let date_text = format_day_month_year(date);
        block.append(date_text.as_str());
        block.append(":</b>\n");
        let body = join_strings(&days[i].1, "\n");
        block.append(body.as_str());
        let ghost before = blocks@;
        proof {
            assert(block@ =~= day_block(*nika, dates@, day as nat, string_views(days@[i as int].1@))->0);
        }
        blocks.push(block);
        proof {
            assert(string_views(blocks@) =~= string_views(before).push(blocks@.last()@));
        }
        i = i + 1;
    }
    assert(runs_view.take(i as int) =~= runs_view);
    Some(blocks)
}

/// The message: heading with `name`, then the blocks, separated by blank lines.
fn render_message(name: &String, blocks: Vec<String>) -> (s: String)
    ensures
        s@ == schedule_message(name@, string_views(blocks@)),
{
    let mut heading = String::new();
    heading.append("<i>Расписание для ");
    heading.append(name.as_str());
    heading.append(":</i>");
    let mut parts: Vec<String> = Vec::new();
    parts.push(heading);
    let mut i: usize = 0;
    let ghost first = seq![schedule_heading(name@)];
    while i < blocks.len()
        invariant
            i <= blocks@.len(),
            string_views(parts@) == first + string_views(blocks@).take(i as int),
        decreases blocks@.len() - i,
    {
        let ghost before = parts@;
        parts.push(blocks[i].clone());
        proof {
            assert(string_views(parts@) =~= string_views(before).push(blocks@[i as int]@));
            assert(string_views(blocks@).take(i + 1) =~= string_views(blocks@).take(i as int).push(
                blocks@[i as int]@,
            ));
            assert(string_views(parts@) =~= first + string_views(blocks@).take(i + 1));
        }
        i = i + 1;
    }
    assert(string_views(blocks@).take(i as int) =~= string_views(blocks@));
    join_strings(&parts, "\n\n")
}

/// The dates of days 0 to 9 after `start`.
fn week_from(start: CalendarDate) -> (dates: Vec<Option<CalendarDate>>)
    ensures
        dates@ == Seq::new(10, |d: int| date_plus_days(start, d)),
        dates_in_range(dates@),
{
    let mut dates: Vec<Option<CalendarDate>> = Vec::new();
    let mut d: i64 = 0;
    while d < 10
        invariant
            0 <= d <= 10,
            dates@ == Seq::new(d as nat, |k: int| date_plus_days(start, k)),
            dates_in_range(dates@),
        decreases 10 - d,
    {
        let next = add_days(start, d);
        dates.push(next);
        d = d + 1;
        assert(dates@ =~= Seq::new(d as nat, |k: int| date_plus_days(start, k)));
    }
    dates
}

/// The dates of days 0 to 9 from the first period's start, as chrono reads and steps them.
fn read_week_dates(nika: &NikaResponse) -> (r: Option<Vec<Option<CalendarDate>>>)
    ensures
        match r {
            Some(dates) => week_dates(*nika) == Some(dates@) && dates_in_range(dates@),
            None => week_dates(*nika) is None,
        },
{
    if nika.periods.len() == 0 {
        return None;
    }
    match parse_day_month_year(nika.periods[0].begins.as_str()) {
        Some(start) => Some(week_from(start)),
        None => None,
    }
}

/// The names of the classes `ids`, joined by `, `.
fn render_class_names(nika: &NikaResponse, ids: &Vec<String>) -> (r: Option<String>)
    ensures
        match r {
            Some(text) => class_names(*nika, ids@) matches Some(names) && text@ == seq_join(names, ", "@),
            None => class_names(*nika, ids@) is None,
        },
{
    let mut names: Vec<String> = Vec::new();
    let mut i: usize = 0;
    while i < ids.len()
        invariant
            i <= ids@.len(),
            class_names(*nika, ids@.take(i as int)) == Some(string_views(names@)),
        decreases ids@.len() - i,
    {
        proof {
            assert(ids@.take(i + 1).drop_last() =~= ids@.take(i as int));
            assert(ids@.take(i + 1).last() == ids@[i as int]);
        }
        let ghost before = names@;
        match find_value(&nika.classes, &ids[i]) {
            Some(name) => {
                names.push(name.clone());
                proof {
                    assert(string_views(names@) =~= string_views(before).push(name@));
                }
            },
            None => {
                proof {
                    lemma_class_names_fail(*nika, ids@, i + 1);
                }
                return None;
            },
        }
        i = i + 1;
    }
    assert(ids@.take(i as int) =~= ids@);
    Some(join_strings(&names, ", "))
}

/// Day and text of a teacher's lesson slot.
fn render_teacher_lesson(nika: &NikaResponse, lesson: &TeacherLesson) -> (r: Option<(u32, String)>)
    ensures
        match r {
            Some(e) => teacher_lesson_entry(*nika, *lesson) == Some((e.0 as nat, e.1@)),
            None => teacher_lesson_entry(*nika, *lesson) is None,
        },
{
    let value = match parse_unsigned_i32(&lesson.lesson_id) {
        Some(v) => v,
        None => return None,
    };
    let first = lesson.lesson_id.as_str().get_char(0);
    let day: u32 = (first as u32) - ('0' as u32);
    let number: u32 = value % 100;
    assert('0' <= lesson.lesson_id@[0] <= '9');
    let subject = match find_value(&nika.subjects, &lesson.subject) {
        Some(v) => v,
        None => return None,
    };
    let times = match find_lesson_times(nika, number) {
        Some(t) => t,
        None => return None,
    };
    let room: String = match &lesson.room {
        Some(id) => match find_value(&nika.rooms, id) {
            Some(v) => v.clone(),
            None => return None,
        },
        None => {
            let mut dash = String::new();
            dash.append("-");
            dash
        },
    };
    let classes: String = match &lesson.classes {
        Some(ids) => match render_class_names(nika, ids) {
            Some(v) => v,
            None => return None,
        },
        None => {
            let mut dash = String::new();
            dash.append("-");
            dash
        },
    };
    let mut text = String::new();
    push_decimal(&mut text, number as u64);
    text.append(". ");
    text.append(room.as_str());
    text.append(": ");
    text.append(subject.as_str());
    text.append(" | ");
    text.append(classes.as_str());
    text.append(" <code>");
    text.append(times.0.as_str());
    text.append("-");
    text.append(times.1.as_str());
    text.append("</code>");
    let ghost expected = teacher_lesson_entry(*nika, *lesson)->0;
    assert(text@ =~= expected.1);
    Some((day, text))
}

impl NikaFormatter {
    /// The timetable message of class `class_id`, with `dates[d]` the date of day `d`
    /// (as chrono computes them from the first period); `None` where the timetable lacks
    /// or garbles something that the message needs.
    pub fn render_class_schedule(nika: &NikaResponse, class_id: &str, dates: &Vec<Option<CalendarDate>>) -> (r: Option<String>)
        requires
            nika.wf(),
            dates_in_range(dates@),
        ensures
            option_view(r) == class_schedule_text(*nika, class_id@, dates@),
    {
        let id = String::from_str(class_id);
        if nika.class_schedule.len() == 0 {
            return None;
        }
        let timetable = &nika.class_schedule[0];
        let week = match find_entry(&timetable.classes, &id) {
            Some(i) => &timetable.classes[i],
            None => return None,
        };
        assert(lookup(nika.class_schedule@[0].classes@, class_id@) == Some(*week));
        let mut entries: Vec<(u32, String)> = Vec::new();
        let mut i: usize = 0;
        while i < week.lessons.len()
            invariant
                i <= week.lessons@.len(),
                nika.class_schedule@.len() > 0,
                lookup(nika.class_schedule@[0].classes@, class_id@) == Some(*week),
                class_lesson_entries(*nika, week.lessons@.take(i as int)) == Some(entry_views(entries@)),
            decreases week.lessons@.len() - i,
        {
            proof {
                assert(week.lessons@.take(i + 1).drop_last() =~= week.lessons@.take(i as int));
            }
            let ghost before = entries@;
            match render_class_lesson(nika, &week.lessons[i]) {
                Some(entry) => {
                    entries.push(entry);
                    proof {
                        assert(entry_views(entries@) =~= entry_views(before).push(
                            (entries@.last().0 as nat, entries@.last().1@),
                        ));
                    }
                },
                None => {
                    proof {
                        assert(week.lessons@.take(i + 1).last() == week.lessons@[i as int]);
                        assert(class_lesson_entries(*nika, week.lessons@.take(i + 1)) is None);
                        lemma_class_entries_fail(*nika, week.lessons@, i + 1);
                    }
                    return None;
                },
            }
            i = i + 1;
        }
        assert(week.lessons@.take(i as int) =~= week.lessons@);
        let days = group_by_day(&entries);
        let blocks = match render_day_blocks(nika, dates, &days) {
            Some(b) => b,
            None => return None,
        };
        let name = match find_value(&nika.classes, &id) {
            Some(n) => n,
            None => return None,
        };
        Some(render_message(name, blocks))
    }
    /// The timetable message of teacher `teacher_id`, with `dates[d]` the date of day `d`
    /// (as chrono computes them from the first period); `None` where the timetable lacks
    /// or garbles something that the message needs.
    pub fn render_teacher_schedule(nika: &NikaResponse, teacher_id: &str, dates: &Vec<Option<CalendarDate>>) -> (r: Option<String>)
        requires
            nika.wf(),
            dates_in_range(dates@),
        ensures
            option_view(r) == teacher_schedule_text(*nika, teacher_id@, dates@),
    {
        let id = String::from_str(teacher_id);
        if nika.teach_schedule.len() == 0 {
            return None;
        }
        let timetable = &nika.teach_schedule[0];
        let week = match find_entry(&timetable.teachers, &id) {
            Some(i) => &timetable.teachers[i],
            None => return None,
        };
        assert(lookup(nika.teach_schedule@[0].teachers@, teacher_id@) == Some(*week));
        let mut entries: Vec<(u32, String)> = Vec::new();
        let mut i: usize = 0;
        while i < week.lessons.len()
            invariant
                i <= week.lessons@.len(),
                nika.teach_schedule@.len() > 0,
                lookup(nika.teach_schedule@[0].teachers@, teacher_id@) == Some(*week),
                teacher_lesson_entries(*nika, week.lessons@.take(i as int)) == Some(entry_views(entries@)),
            decreases week.lessons@.len() - i,
        {
            proof {
                assert(week.lessons@.take(i + 1).drop_last() =~= week.lessons@.take(i as int));
                assert(week.lessons@.take(i + 1).last() == week.lessons@[i as int]);
            }
            let ghost before = entries@;
            match render_teacher_lesson(nika, &week.lessons[i]) {
                Some(entry) => {
                    entries.push(entry);
                    proof {
                        assert(entry_views(entries@) =~= entry_views(before).push(
                            (entries@.last().0 as nat, entries@.last().1@),
                        ));
                    }
                },
                None => {
                    proof {
                        assert(teacher_lesson_entries(*nika, week.lessons@.take(i + 1)) is None);
                        lemma_teacher_entries_fail(*nika, week.lessons@, i + 1);
                    }
                    return None;
                },
            }
            i = i + 1;
        }
        assert(week.lessons@.take(i as int) =~= week.lessons@);
        let days = group_by_day(&entries);
        let blocks = match render_day_blocks(nika, dates, &days) {
            Some(b) => b,
            None => return None,
        };
        let name = match find_value(&nika.teachers, &id) {
            Some(n) => n,
            None => return None,
        };
        Some(render_message(name, blocks))
    }
    /// The timetable message of class `class_id`: the heading names the class, and each
    /// run of slots on one day forms a block headed by the day's name and date.
    /// The timetable's keys ascend (`wf`), so its first period and its first timetable are
    /// those of least key. `requires` leaves out the timetables on which the message cannot
    /// be formed.
    pub fn format_class_schedule(nika: &NikaResponse, class_id: &str) -> (s: String)
        requires
            nika.wf(),
            class_schedule_message(*nika, class_id@) is Some,
        ensures
            s@ == class_schedule_message(*nika, class_id@)->0,
    {
        match read_week_dates(nika) {
            Some(dates) => match Self::render_class_schedule(nika, class_id, &dates) {
                Some(text) => text,
                None => {
                    assert(false);
                    String::new()
                },
            },
            None => {
                assert(false);
                String::new()
            },
        }
    }

    /// The timetable message of class `class_id`, or `None` where the timetable lacks or
    /// garbles something that the message needs.
    pub fn try_format_class_schedule(nika: &NikaResponse, class_id: &str) -> (r: Option<String>)
        requires
            nika.wf(),
        ensures
            option_view(r) == class_schedule_message(*nika, class_id@),
    {
        let formable = match read_week_dates(nika) {
            Some(dates) => Self::render_class_schedule(nika, class_id, &dates).is_some(),
            None => false,
        };
        if formable {
            Some(Self::format_class_schedule(nika, class_id))
        } else {
            None
        }
    }

    /// The timetable message of teacher `teacher_id`, laid out as that of a class, from the
    /// first period and the first timetable (those of least key). `requires` leaves out the
    /// timetables on which the message cannot be formed.
    pub fn format_teacher_schedule(nika: &NikaResponse, teacher_id: &str) -> (s: String)
        requires
            nika.wf(),
            teacher_schedule_message(*nika, teacher_id@) is Some,
        ensures
            s@ == teacher_schedule_message(*nika, teacher_id@)->0,
    {
        match read_week_dates(nika) {
            Some(dates) => match Self::render_teacher_schedule(nika, teacher_id, &dates) {
                Some(text) => text,
                None => {
                    assert(false);
                    String::new()
                },
            },
            None => {
                assert(false);
                String::new()
            },
        }
    }

    /// The timetable message of teacher `teacher_id`, or `None` where the timetable lacks or
    /// garbles something that the message needs.
    pub fn try_format_teacher_schedule(nika: &NikaResponse, teacher_id: &str) -> (r: Option<String>)
        requires
            nika.wf(),
        ensures
            option_view(r) == teacher_schedule_message(*nika, teacher_id@),
    {
        let formable = match read_week_dates(nika) {
            Some(dates) => Self::render_teacher_schedule(nika, teacher_id, &dates).is_some(),
            None => false,
        };
        if formable {
            Some(Self::format_teacher_schedule(nika, teacher_id))
        } else {
            None
        }
    }
}

/// A class timetable message begins with the heading that names the class.
pub proof fn class_message_starts_with_heading(nika: NikaResponse, class_id: Seq<char>, dates: Seq<Option<CalendarDate>>)
    requires
        class_schedule_text(nika, class_id, dates) is Some,
    ensures
        lookup_value(nika.classes@, class_id) matches Some(name) && class_schedule_text(nika, class_id, dates)->0.take(
            schedule_heading(name).len() as int,
        ) == schedule_heading(name),
{
    let week = lookup(nika.class_schedule@[0].classes@, class_id)->0;
    let entries = class_lesson_entries(nika, week.lessons@)->0;
    let blocks = day_blocks(nika, dates, runs(entries))->0;
    let name = lookup_value(nika.classes@, class_id)->0;
    seq_join_starts_with_first(seq![schedule_heading(name)] + blocks, "\n\n"@);
}

/// A teacher timetable message begins with the heading that names the teacher.
pub proof fn teacher_message_starts_with_heading(nika: NikaResponse, teacher_id: Seq<char>, dates: Seq<Option<CalendarDate>>)
    requires
        teacher_schedule_text(nika, teacher_id, dates) is Some,
    ensures
        lookup_value(nika.teachers@, teacher_id) matches Some(name) && teacher_schedule_text(nika, teacher_id, dates)->0.take(
            schedule_heading(name).len() as int,
        ) == schedule_heading(name),
{
    let week = lookup(nika.teach_schedule@[0].teachers@, teacher_id)->0;
    let entries = teacher_lesson_entries(nika, week.lessons@)->0;
    let blocks = day_blocks(nika, dates, runs(entries))->0;
    let name = lookup_value(nika.teachers@, teacher_id)->0;
    seq_join_starts_with_first(seq![schedule_heading(name)] + blocks, "\n\n"@);
}

/// The day blocks of a message follow the runs of slots: one block per run of slots on one
/// day, in order, every slot in the run of its day, and neighbouring runs on different days.
pub proof fn message_blocks_follow_day_runs(nika: NikaResponse, dates: Seq<Option<CalendarDate>>, entries: Seq<(nat, Seq<char>)>)
    requires
        day_blocks(nika, dates, runs(entries)) is Some,
    ensures
        day_blocks(nika, dates, runs(entries))->0.len() == runs(entries).len(),
        run_items(runs(entries)) == entries,
        forall|i: int| 0 <= i < runs(entries).len() - 1 ==> (#[trigger] runs(entries)[i]).0 != runs(entries)[i + 1].0,
{
    lemma_day_blocks_len(nika, dates, runs(entries));
    runs_cover_items(entries);
    runs_are_maximal(entries);
}

/// `groups` cuts `entries` into maximal runs of one day: expanded again in order they give
/// back exactly the entries, none is empty, and neighbouring groups are on different days.
pub open spec fn groups_into_day_runs(groups: Seq<(nat, Seq<Seq<char>>)>, entries: Seq<(nat, Seq<char>)>) -> bool {
    &&& run_items(groups) == entries
    &&& forall|i: int| 0 <= i < groups.len() ==> (#[trigger] groups[i]).1.len() > 0
    &&& forall|i: int| 0 <= i < groups.len() - 1 ==> (#[trigger] groups[i]).0 != groups[i + 1].0
}

proof fn lemma_runs_group_into_day_runs(entries: Seq<(nat, Seq<char>)>)
    ensures
        groups_into_day_runs(runs(entries), entries),
{
    runs_cover_items(entries);
    runs_are_maximal(entries);
}

/// A class's message is its heading followed by one block per maximal run of its slots
/// on one day: slots of one day that follow each other share a block, and neighbouring
/// blocks are on different days.
pub proof fn class_message_has_one_block_per_day_run(nika: NikaResponse, class_id: Seq<char>, dates: Seq<Option<CalendarDate>>)
    requires
        class_schedule_text(nika, class_id, dates) is Some,
    ensures
        exists|groups: Seq<(nat, Seq<Seq<char>>)>|
            #[trigger] groups_into_day_runs(
                groups,
                class_lesson_entries(nika, lookup(nika.class_schedule@[0].classes@, class_id)->0.lessons@)->0,
            ) && day_blocks(nika, dates, groups) is Some && class_schedule_text(nika, class_id, dates) == Some(
                schedule_message(lookup_value(nika.classes@, class_id)->0, day_blocks(nika, dates, groups)->0),
            ),
{
    let entries = class_lesson_entries(nika, lookup(nika.class_schedule@[0].classes@, class_id)->0.lessons@)->0;
    lemma_runs_group_into_day_runs(entries);
}

/// A teacher's message is the heading followed by one block per maximal run of the
/// teacher's slots on one day: slots of one day that follow each other share a block, and
/// neighbouring blocks are on different days.
pub proof fn teacher_message_has_one_block_per_day_run(nika: NikaResponse, teacher_id: Seq<char>, dates: Seq<Option<CalendarDate>>)
    requires
        teacher_schedule_text(nika, teacher_id, dates) is Some,
    ensures
        exists|groups: Seq<(nat, Seq<Seq<char>>)>|
            #[trigger] groups_into_day_runs(
                groups,
                teacher_lesson_entries(nika, lookup(nika.teach_schedule@[0].teachers@, teacher_id)->0.lessons@)->0,
            ) && day_blocks(nika, dates, groups) is Some && teacher_schedule_text(nika, teacher_id, dates) == Some(
                schedule_message(lookup_value(nika.teachers@, teacher_id)->0, day_blocks(nika, dates, groups)->0),
            ),
{
    let entries = teacher_lesson_entries(nika, lookup(nika.teach_schedule@[0].teachers@, teacher_id)->0.lessons@)->0;
    lemma_runs_group_into_day_runs(entries);
}

/// The day of a slot is one digit, and every such day has its date: with a first period
/// whose start chrono reads, day `d` (0 to 9) is dated `d` days after that start, as chrono
/// steps it; without one there are no dates.
pub proof fn week_dates_cover_every_slot_day(nika: NikaResponse, id: Seq<char>)
    ensures
        lesson_number_and_day(id) matches Some(found) ==> found.1 <= 9,
        week_dates(nika) is Some <==> nika.periods@.len() > 0 && parsed_day_month_year(nika.periods@[0].begins@) is Some,
        week_dates(nika) matches Some(dates) ==> forall|d: int|
            0 <= d <= 9 ==> d < dates.len() && #[trigger] dates[d] == date_plus_days(
                parsed_day_month_year(nika.periods@[0].begins@)->0,
                d,
            ),
{
}

/// Each day block opens with the day's name (day `d` is `day_names[d - 1]`) and its date
/// in bold, then lists the texts of the run's slots one per line; there is one block per
/// run, and blocks exist only for named days that have a date.
pub proof fn day_blocks_name_and_date_each_run(nika: NikaResponse, dates: Seq<Option<CalendarDate>>, days: Seq<(nat, Seq<Seq<char>>)>)
    requires
        day_blocks(nika, dates, days) is Some,
    ensures
        day_blocks(nika, dates, days)->0.len() == days.len(),
        forall|i: int| 0 <= i < days.len() ==> {
            let day = (#[trigger] days[i]).0;
            &&& 1 <= day <= nika.day_names@.len()
            &&& day < dates.len()
            &&& dates[day as int] is Some
            &&& day_blocks(nika, dates, days)->0[i] == "<b>"@ + nika.day_names@[day - 1]@ + " / "@
                + day_month_year_text(dates[day as int]->0) + ":</b>\n"@ + seq_join(days[i].1, "\n"@)
        },
    decreases days.len(),
{
    if days.len() > 0 {
        day_blocks_name_and_date_each_run(nika, dates, days.drop_last());
        assert forall|i: int| 0 <= i < days.len() - 1 implies days[i] == days.drop_last()[i] by {}
    }
}

proof fn lemma_day_blocks_len(nika: NikaResponse, dates: Seq<Option<CalendarDate>>, days: Seq<(nat, Seq<Seq<char>>)>)
    requires
        day_blocks(nika, dates, days) is Some,
    ensures
        day_blocks(nika, dates, days)->0.len() == days.len(),
    decreases days.len(),
{
    if days.len() > 0 {
        lemma_day_blocks_len(nika, dates, days.drop_last());
    }
}

/// Two timetables agree on what every message reads besides the slots and the period:
/// the name tables, the lesson times and the day names.
pub open spec fn same_tables(a: NikaResponse, b: NikaResponse) -> bool {
    &&& a.classes@ == b.classes@
    &&& a.teachers@ == b.teachers@
    &&& a.rooms@ == b.rooms@
    &&& a.subjects@ == b.subjects@
    &&& a.lesson_times@ == b.lesson_times@
    &&& a.day_names@ == b.day_names@
}

/// Two timetables have the same start of their first period (that of least key).
pub open spec fn same_first_period(a: NikaResponse, b: NikaResponse) -> bool {
    &&& (a.periods@.len() > 0 <==> b.periods@.len() > 0)
    &&& a.periods@.len() > 0 ==> a.periods@[0].begins@ == b.periods@[0].begins@
}

proof fn lemma_group_lines_same(a: NikaResponse, b: NikaResponse, lesson: ClassLesson, number: nat, count: nat)
    requires
        same_tables(a, b),
    ensures
        class_group_lines(a, lesson, number, count) == class_group_lines(b, lesson, number, count),
    decreases count,
{
    if count > 0 {
        lemma_group_lines_same(a, b, lesson, number, (count - 1) as nat);
        assert(class_group_text(a, lesson, number, count - 1) == class_group_text(b, lesson, number, count - 1));
    }
}

proof fn lemma_class_entries_same(a: NikaResponse, b: NikaResponse, lessons: Seq<ClassLesson>)
    requires
        same_tables(a, b),
    ensures
        class_lesson_entries(a, lessons) == class_lesson_entries(b, lessons),
    decreases lessons.len(),
{
    if lessons.len() > 0 {
        lemma_class_entries_same(a, b, lessons.drop_last());
        let lesson = lessons.last();
        lemma_group_lines_same(a, b, lesson, (unsigned_i32_value(lesson.lesson_id@)->0 % 100) as nat, lesson.subjects@.len());
    }
}

proof fn lemma_class_names_same(a: NikaResponse, b: NikaResponse, ids: Seq<String>)
    requires
        same_tables(a, b),
    ensures
        class_names(a, ids) == class_names(b, ids),
    decreases ids.len(),
{
    if ids.len() > 0 {
        lemma_class_names_same(a, b, ids.drop_last());
    }
}

proof fn lemma_teacher_entries_same(a: NikaResponse, b: NikaResponse, lessons: Seq<TeacherLesson>)
    requires
        same_tables(a, b),
    ensures
        teacher_lesson_entries(a, lessons) == teacher_lesson_entries(b, lessons),
    decreases lessons.len(),
{
    if lessons.len() > 0 {
        lemma_teacher_entries_same(a, b, lessons.drop_last());
        let lesson = lessons.last();
        match lesson.classes {
            Some(ids) => lemma_class_names_same(a, b, ids@),
            None => {},
        }
    }
}

proof fn lemma_day_blocks_same(a: NikaResponse, b: NikaResponse, dates: Seq<Option<CalendarDate>>, days: Seq<(nat, Seq<Seq<char>>)>)
    requires
        same_tables(a, b),
    ensures
        day_blocks(a, dates, days) == day_blocks(b, dates, days),
    decreases days.len(),
{
    if days.len() > 0 {
        lemma_day_blocks_same(a, b, dates, days.drop_last());
    }
}

/// The message of a class reads nothing but the start of the first period, the class's own
/// slots in the first timetable (those of least key) and the name tables: timetables that
/// agree on these, however else they differ (later periods and timetables, other classes),
/// give the same message.
pub proof fn class_message_reads_only_its_class(a: NikaResponse, b: NikaResponse, class_id: Seq<char>)
    requires
        a.wf(),
        b.wf(),
        same_tables(a, b),
        same_first_period(a, b),
        a.class_schedule@.len() > 0 <==> b.class_schedule@.len() > 0,
        a.class_schedule@.len() > 0 ==> lookup(a.class_schedule@[0].classes@, class_id) == lookup(
            b.class_schedule@[0].classes@,
            class_id,
        ),
    ensures
        class_schedule_message(a, class_id) == class_schedule_message(b, class_id),
{
    assert(week_dates(a) == week_dates(b));
    if a.class_schedule@.len() > 0 {
        match lookup(a.class_schedule@[0].classes@, class_id) {
            Some(week) => {
                lemma_class_entries_same(a, b, week.lessons@);
                match class_lesson_entries(a, week.lessons@) {
                    Some(entries) => match week_dates(a) {
                        Some(dates) => lemma_day_blocks_same(a, b, dates, runs(entries)),
                        None => {},
                    },
                    None => {},
                }
            },
            None => {},
        }
    }
}

/// The message of a teacher reads nothing but the start of the first period, the teacher's
/// own slots in the first timetable (those of least key) and the name tables: timetables
/// that agree on these, however else they differ, give the same message.
pub proof fn teacher_message_reads_only_its_teacher(a: NikaResponse, b: NikaResponse, teacher_id: Seq<char>)
    requires
        a.wf(),
        b.wf(),
        same_tables(a, b),
        same_first_period(a, b),
        a.teach_schedule@.len() > 0 <==> b.teach_schedule@.len() > 0,
        a.teach_schedule@.len() > 0 ==> lookup(a.teach_schedule@[0].teachers@, teacher_id) == lookup(
            b.teach_schedule@[0].teachers@,
            teacher_id,
        ),
    ensures
        teacher_schedule_message(a, teacher_id) == teacher_schedule_message(b, teacher_id),
{
    assert(week_dates(a) == week_dates(b));
    if a.teach_schedule@.len() > 0 {
        match lookup(a.teach_schedule@[0].teachers@, teacher_id) {
            Some(week) => {
                lemma_teacher_entries_same(a, b, week.lessons@);
                match teacher_lesson_entries(a, week.lessons@) {
                    Some(entries) => match week_dates(a) {
                        Some(dates) => lemma_day_blocks_same(a, b, dates, runs(entries)),
                        None => {},
                    },
                    None => {},
                }
            },
            None => {},
        }
    }
}

} // verus!
