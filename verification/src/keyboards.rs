//! The inline keyboards of the bot: classes grouped by course, teachers by name.

use vstd::prelude::*;
use crate::grouping::{
    chunks, chunks_cover_items, expand_run, flatten, item_values, lemma_run_positions, row_start, run_items,
    run_value_rows, runs, runs_are_maximal, runs_cover_items,
};
use crate::patterns::{regex_error_display, regex_error_text};
use crate::response::{find_value, lookup_value, NikaResponse, Pair};
use crate::text::{
    lemma_text_le_total, lemma_text_le_transitive, text_le, text_le_from, text_less_or_equal,
};

verus! {

/// An inline keyboard button: the label shown and the data sent back when it is pressed.
#[derive(Clone, Debug)]
pub struct Button {
    pub text: String,
    pub callback_data: String,
}

/// An inline keyboard, row by row.
#[derive(Clone, Debug)]
pub struct Keyboard {
    pub rows: Vec<Vec<Button>>,
}

/// Failures of building a keyboard.
#[derive(Debug)]
pub enum KeyboardMakerError {
    Regex(regex::Error),
    GradeParsing,
}

/// A button by its label and data.
pub open spec fn button_view(b: Button) -> (Seq<char>, Seq<char>) {
    (b.text@, b.callback_data@)
}

/// Buttons by their views.
pub open spec fn button_views(buttons: Seq<Button>) -> Seq<(Seq<char>, Seq<char>)> {
    buttons.map_values(|b: Button| button_view(b))
}

/// Rows by their views.
pub open spec fn row_views(rows: Seq<Vec<Button>>) -> Seq<Seq<(Seq<char>, Seq<char>)>> {
    rows.map_values(|row: Vec<Button>| button_views(row@))
}

/// A keyboard by the views of its rows.
pub open spec fn keyboard_view(k: Keyboard) -> Seq<Seq<(Seq<char>, Seq<char>)>> {
    row_views(k.rows@)
}

/// The button rows of runs of buttons with their keys.
pub open spec fn run_rows(groups: Seq<(Seq<char>, Seq<(Seq<char>, Seq<char>)>)>) -> Seq<Seq<(Seq<char>, Seq<char>)>> {
    groups.map_values(|r: (Seq<char>, Seq<(Seq<char>, Seq<char>)>)| r.1)
}

/// The button of a class: its name, and `class <id>` as data.
pub open spec fn class_button(p: Pair) -> (Seq<char>, Seq<char>) {
    (p.value@, "class "@ + p.key@)
}

/// The button of a teacher: the name, and `teacher <id>` as data.
pub open spec fn teacher_button(p: Pair) -> (Seq<char>, Seq<char>) {
    (p.value@, "teacher "@ + p.key@)
}

/// Every class has a course.
pub open spec fn every_class_has_course(nika: NikaResponse) -> bool {
    forall|i: int| 0 <= i < nika.classes@.len() ==> (#[trigger] lookup_value(nika.class_courses@, nika.classes@[i].key@)) is Some
}

/// The class buttons in the order of the classes, each with the course of its class.
pub open spec fn class_buttons_by_course(nika: NikaResponse) -> Seq<(Seq<char>, (Seq<char>, Seq<char>))> {
    nika.classes@.map_values(|p: Pair| (lookup_value(nika.class_courses@, p.key@)->0, class_button(p)))
}

/// The rows of the classes keyboard: one row per run of consecutive classes of one course.
pub open spec fn classes_keyboard_rows(nika: NikaResponse) -> Seq<Seq<(Seq<char>, Seq<char>)>> {
    run_rows(runs(class_buttons_by_course(nika)))
}

/// The first position in `sorted` whose name comes strictly after `name`.
pub open spec fn first_after(sorted: Seq<Pair>, name: Seq<char>, k: int) -> int
    decreases sorted.len() - k,
{
    if k < 0 || k >= sorted.len() {
        sorted.len() as int
    } else if !text_le(sorted[k].value@, name) {
        k
    } else {
        first_after(sorted, name, k + 1)
    }
}

/// The pairs ordered by name, stably: pairs with equal names keep their order (as a
/// stable sort such as `Itertools::sorted_by` leaves them).
pub open spec fn sorted_by_name(pairs: Seq<Pair>) -> Seq<Pair>
    decreases pairs.len(),
{
    if pairs.len() == 0 {
        Seq::empty()
    } else {
        let sorted = sorted_by_name(pairs.drop_last());
        sorted.insert(first_after(sorted, pairs.last().value@, 0), pairs.last())
    }
}

/// The rows of the teachers keyboard: the teachers ordered by name, three to a row.
pub open spec fn teachers_keyboard_rows(nika: NikaResponse) -> Seq<Seq<(Seq<char>, Seq<char>)>> {
    chunks(sorted_by_name(nika.teachers@).map_values(|p: Pair| teacher_button(p)), 3)
}

/// Builds a button.
fn new_button(text: &String, prefix: &str, key: &String) -> (b: Button)
    ensures
        b.text@ == text@,
        b.callback_data@ == prefix@ + key@,
{
    let mut data = String::new();
    data.append(prefix);
    data.append(key.as_str());
    Button { text: text.clone(), callback_data: data }
}

/// The keyboard of all classes: one row per run of consecutive classes (in the order of
/// their identifiers) that belong to one course, each button labelled with the class name
/// and sending `class <id>`. `requires` leaves out timetables where a class has no course.
pub fn make_classes_keyboard(nika: &NikaResponse) -> (r: Result<Keyboard, KeyboardMakerError>)
    requires
        every_class_has_course(*nika),
    ensures
        r matches Ok(k) && keyboard_view(k) == classes_keyboard_rows(*nika),
{
    let ghost items = class_buttons_by_course(*nika);
    let mut rows: Vec<Vec<Button>> = Vec::new();
    let mut cur: Vec<Button> = Vec::new();
    let mut cur_course = String::new();
    let ghost mut done: Seq<(Seq<char>, Seq<(Seq<char>, Seq<char>)>)> = Seq::empty();
    let mut i: usize = 0;
    while i < nika.classes.len()
        invariant
            i <= nika.classes@.len(),
            items == class_buttons_by_course(*nika),
            every_class_has_course(*nika),
            row_views(rows@) == run_rows(done),
            i == 0 ==> done.len() == 0,
            i > 0 ==> runs(items.take(i as int)) == done.push((cur_course@, button_views(cur@))),
        decreases nika.classes@.len() - i,
    {
        let pair = &nika.classes[i];
        assert(lookup_value(nika.class_courses@, nika.classes@[i as int].key@) is Some);
        let course = match find_value(&nika.class_courses, &pair.key) {
            Some(c) => c,
            None => {
                assert(false);
                return Err(KeyboardMakerError::GradeParsing);
            },
        };
        let button = new_button(&pair.value, "class ", &pair.key);
        proof {
            assert(items.take(i + 1).drop_last() =~= items.take(i as int));
            assert(items.take(i + 1).last() == (course@, button_view(button)));
        }
        if i > 0 && *course == cur_course {
            let ghost before = cur@;
            cur.push(button);
            proof {
                assert(button_views(cur@) =~= button_views(before).push(button_view(button)));
            }
        } else {
            if i > 0 {
                let ghost rows_before = rows@;
                let ghost done_before = done;
                proof {
                    done = done.push((cur_course@, button_views(cur@)));
                }
                rows.push(cur);
                proof {
                    assert(row_views(rows@) =~= row_views(rows_before).push(button_views(cur@)));
                    assert(run_rows(done) =~= run_rows(done_before).push(button_views(cur@)));
                }
            } else {
                assert(runs(items.take(0)) =~= Seq::<(Seq<char>, Seq<(Seq<char>, Seq<char>)>)>::empty());
            }
            cur_course = course.clone();
            cur = Vec::new();
            cur.push(button);
            proof {
                assert(button_views(cur@) =~= seq![button_view(button)]);
            }
        }
        i = i + 1;
    }
    if i > 0 {
        let ghost rows_before = rows@;
        let ghost done_before = done;
        proof {
            done = done.push((cur_course@, button_views(cur@)));
        }
        rows.push(cur);
        proof {
            assert(row_views(rows@) =~= row_views(rows_before).push(button_views(cur@)));
            assert(run_rows(done) =~= run_rows(done_before).push(button_views(cur@)));
        }
    } else {
        assert(row_views(rows@) =~= run_rows(runs(items)));
    }
    assert(items.take(i as int) =~= items);
    let k = Keyboard { rows };
    assert(keyboard_view(k) =~= classes_keyboard_rows(*nika));
    Ok(k)
}

/// The pairs at the positions `order`.
pub open spec fn pairs_at(pairs: Seq<Pair>, order: Seq<usize>) -> Seq<Pair> {
    order.map_values(|j: usize| pairs[j as int])
}

/// Positions in `pairs` that order them by name, stably.
fn order_by_name(pairs: &Vec<Pair>) -> (order: Vec<usize>)
    ensures
        forall|t: int| 0 <= t < order@.len() ==> #[trigger] order@[t] < pairs@.len(),
        pairs_at(pairs@, order@) == sorted_by_name(pairs@),
{
    let mut order: Vec<usize> = Vec::new();
    let mut i: usize = 0;
    while i < pairs.len()
        invariant
            i <= pairs@.len(),
            forall|t: int| 0 <= t < order@.len() ==> #[trigger] order@[t] < pairs@.len(),
            pairs_at(pairs@, order@) == sorted_by_name(pairs@.take(i as int)),
        decreases pairs@.len() - i,
    {
        let ghost sorted = pairs_at(pairs@, order@);
        let name = &pairs[i].value;
        let mut j: usize = 0;
        loop
            invariant
                j <= order@.len(),
                i < pairs@.len(),
                sorted == pairs_at(pairs@, order@),
                forall|t: int| 0 <= t < order@.len() ==> #[trigger] order@[t] < pairs@.len(),
                first_after(sorted, name@, 0) == first_after(sorted, name@, j as int),
            ensures
                j == first_after(sorted, name@, 0),
            decreases order@.len() - j,
        {
            if j >= order.len() {
                break;
            }
            if !text_less_or_equal(&pairs[order[j]].value, name) {
                break;
            }
            j = j + 1;
        }
        let ghost order_before = order@;
        order.insert(j, i);
        proof {
            assert(pairs@.take(i + 1).drop_last() =~= pairs@.take(i as int));
            assert(pairs@.take(i + 1).last() == pairs@[i as int]);
            assert(pairs_at(pairs@, order@) =~= sorted.insert(j as int, pairs@[i as int]));
            assert forall|t: int| 0 <= t < order@.len() implies #[trigger] order@[t] < pairs@.len() by {
                if t < j {
                    assert(order@[t] == order_before[t]);
                } else if t > j {
                    assert(order@[t] == order_before[t - 1]);
                }
            }
        }
        i = i + 1;
    }
    assert(pairs@.take(i as int) =~= pairs@);
    order
}

/// The keyboard of all teachers: ordered by name (equal names in the order of their
/// identifiers), three to a row, each button labelled with the teacher's name and sending
/// `teacher <id>`.
pub fn make_teachers_keyboard(nika: &NikaResponse) -> (k: Keyboard)
    ensures
        keyboard_view(k) == teachers_keyboard_rows(*nika),
{
    let order = order_by_name(&nika.teachers);
    let ghost items = sorted_by_name(nika.teachers@).map_values(|p: Pair| teacher_button(p));
    let mut rows: Vec<Vec<Button>> = Vec::new();
    let mut k: usize = 0;
    assert(items.skip(0) =~= items);
    assert(row_views(rows@) =~= Seq::<Seq<(Seq<char>, Seq<char>)>>::empty());
    assert(row_views(rows@) + chunks(items.skip(0), 3) =~= chunks(items, 3));
    while k < order.len()
        invariant
            k <= order@.len(),
            items.len() == order@.len(),
            forall|t: int| 0 <= t < order@.len() ==> #[trigger] order@[t] < nika.teachers@.len(),
            items == pairs_at(nika.teachers@, order@).map_values(|p: Pair| teacher_button(p)),
            row_views(rows@) + chunks(items.skip(k as int), 3) == chunks(items, 3),
        decreases order@.len() - k,
    {
        let end: usize = if order.len() - k > 3 { k + 3 } else { order.len() };
        let mut row: Vec<Button> = Vec::new();
        let mut t: usize = k;
        while t < end
            invariant
                k <= t <= end <= order@.len(),
                items.len() == order@.len(),
                forall|u: int| 0 <= u < order@.len() ==> #[trigger] order@[u] < nika.teachers@.len(),
                items == pairs_at(nika.teachers@, order@).map_values(|p: Pair| teacher_button(p)),
                button_views(row@) == items.subrange(k as int, t as int),
            decreases end - t,
        {
            let pair = &nika.teachers[order[t]];
            let button = new_button(&pair.value, "teacher ", &pair.key);
            let ghost before = row@;
            row.push(button);
            proof {
                assert(items[t as int] == teacher_button(nika.teachers@[order@[t as int] as int]));
                assert(button_view(button) == items[t as int]);
                assert(button_views(row@) =~= button_views(before).push(button_view(button)));
                assert(items.subrange(k as int, t + 1) =~= items.subrange(k as int, t as int).push(items[t as int]));
                assert(button_views(row@) =~= items.subrange(k as int, t + 1));
            }
            t = t + 1;
        }
        let ghost rows_before = rows@;
        let ghost rest = items.skip(k as int);
        rows.push(row);
        proof {
            assert(row_views(rows@) =~= row_views(rows_before).push(button_views(row@)));
            if rest.len() <= 3 {
                assert(rest =~= items.subrange(k as int, end as int));
                assert(items.skip(end as int).len() == 0);
                assert(chunks(items.skip(end as int), 3) =~= Seq::<Seq<(Seq<char>, Seq<char>)>>::empty());
            } else {
                assert(rest.take(3) =~= items.subrange(k as int, end as int));
                assert(rest.skip(3) =~= items.skip(end as int));
            }
            assert(row_views(rows@) + chunks(items.skip(end as int), 3) =~= row_views(rows_before)
                + chunks(rest, 3));
        }
        k = end;
    }
    proof {
        assert(items.skip(k as int).len() == 0);
        assert(chunks(items.skip(k as int), 3) =~= Seq::<Seq<(Seq<char>, Seq<char>)>>::empty());
        assert(row_views(rows@) =~= row_views(rows@) + chunks(items.skip(k as int), 3));
        assert(items =~= sorted_by_name(nika.teachers@).map_values(|p: Pair| teacher_button(p)));
    }
    Keyboard { rows }
}

/// Pairs whose names never decrease.
pub open spec fn sorted_names(s: Seq<Pair>) -> bool {
    forall|i: int, j: int| 0 <= i < j < s.len() ==> text_le(#[trigger] s[i].value@, #[trigger] s[j].value@)
}

proof fn lemma_first_after(s: Seq<Pair>, name: Seq<char>, k: int)
    requires
        0 <= k <= s.len(),
    ensures
        k <= first_after(s, name, k) <= s.len(),
        forall|m: int| k <= m < first_after(s, name, k) ==> text_le(#[trigger] s[m].value@, name),
        first_after(s, name, k) < s.len() ==> !text_le(s[first_after(s, name, k)].value@, name),
    decreases s.len() - k,
{
    if k < s.len() && text_le(s[k].value@, name) {
        lemma_first_after(s, name, k + 1);
    }
}

/// Inserting at `first_after` keeps the names in order.
proof fn lemma_insert_sorted(s: Seq<Pair>, p: Pair)
    requires
        sorted_names(s),
    ensures
        sorted_names(s.insert(first_after(s, p.value@, 0), p)),
{
    let pos = first_after(s, p.value@, 0);
    lemma_first_after(s, p.value@, 0);
    let t = s.insert(pos, p);
    assert forall|i: int, j: int| 0 <= i < j < t.len() implies text_le(#[trigger] t[i].value@, #[trigger] t[j].value@) by {
        if j < pos {
            assert(t[i] == s[i] && t[j] == s[j]);
        } else if j == pos {
            assert(t[i] == s[i] && t[j] == p);
        } else if i == pos {
            assert(t[i] == p && t[j] == s[j - 1]);
            lemma_text_le_total(s[pos].value@, p.value@, 0);
            if j - 1 > pos {
                assert(text_le(s[pos].value@, s[j - 1].value@));
                lemma_text_le_transitive(p.value@, s[pos].value@, s[j - 1].value@, 0);
            }
        } else if i < pos {
            assert(t[i] == s[i] && t[j] == s[j - 1]);
        } else {
            assert(t[i] == s[i - 1] && t[j] == s[j - 1]);
        }
    }
}

/// Ordering by name gives the names in order and keeps every pair, each as often as before.
pub proof fn sorted_by_name_orders_and_keeps(pairs: Seq<Pair>)
    ensures
        sorted_names(sorted_by_name(pairs)),
        sorted_by_name(pairs).to_multiset() == pairs.to_multiset(),
    decreases pairs.len(),
{
    broadcast use vstd::seq_lib::to_multiset_insert, vstd::seq_lib::to_multiset_build;
    if pairs.len() > 0 {
        let prev = sorted_by_name(pairs.drop_last());
        sorted_by_name_orders_and_keeps(pairs.drop_last());
        lemma_insert_sorted(prev, pairs.last());
        lemma_first_after(prev, pairs.last().value@, 0);
        assert(pairs =~= pairs.drop_last().push(pairs.last()));
    } else {
        assert(sorted_by_name(pairs) =~= pairs);
    }
}

/// The rows of runs, concatenated, are the values of the runs' items.
proof fn lemma_flatten_run_rows(groups: Seq<(Seq<char>, Seq<(Seq<char>, Seq<char>)>)>)
    ensures
        flatten(run_rows(groups)) == item_values(run_items(groups)),
    decreases groups.len(),
{
    if groups.len() > 0 {
        lemma_flatten_run_rows(groups.drop_last());
        assert(run_rows(groups).drop_last() =~= run_rows(groups.drop_last()));
        assert(item_values(run_items(groups)) =~= item_values(run_items(groups.drop_last()))
            + item_values(expand_run(groups.last())));
        assert(item_values(expand_run(groups.last())) =~= groups.last().1);
    } else {
        assert(item_values(run_items(groups)) =~= Seq::<(Seq<char>, Seq<char>)>::empty());
    }
}

/// The classes keyboard has one button for every class, in the order of the classes; no
/// row is empty, the classes of a row share one course, and neighbouring rows have
/// different courses.
pub proof fn classes_keyboard_lists_each_class_once(nika: NikaResponse)
    ensures
        flatten(classes_keyboard_rows(nika)) == nika.classes@.map_values(|p: Pair| class_button(p)),
        run_items(runs(class_buttons_by_course(nika))) == class_buttons_by_course(nika),
        forall|i: int| 0 <= i < classes_keyboard_rows(nika).len() ==> (#[trigger] classes_keyboard_rows(nika)[i]).len() > 0,
        forall|i: int| 0 <= i < runs(class_buttons_by_course(nika)).len() - 1
            ==> (#[trigger] runs(class_buttons_by_course(nika))[i]).0 != runs(class_buttons_by_course(nika))[i + 1].0,
{
    let items = class_buttons_by_course(nika);
    runs_cover_items(items);
    runs_are_maximal(items);
    lemma_flatten_run_rows(runs(items));
    assert(item_values(items) =~= nika.classes@.map_values(|p: Pair| class_button(p)));
    assert forall|i: int| 0 <= i < classes_keyboard_rows(nika).len() implies (#[trigger] classes_keyboard_rows(nika)[i]).len() > 0 by {
        assert(classes_keyboard_rows(nika)[i] == runs(items)[i].1);
    }
}

/// The teachers keyboard has one button for every teacher, ordered by name with the names
/// never decreasing; rows hold three buttons, the last one one to three.
pub proof fn teachers_keyboard_orders_teachers(nika: NikaResponse)
    ensures
        flatten(teachers_keyboard_rows(nika)) == sorted_by_name(nika.teachers@).map_values(|p: Pair| teacher_button(p)),
        sorted_names(sorted_by_name(nika.teachers@)),
        sorted_by_name(nika.teachers@).to_multiset() == nika.teachers@.to_multiset(),
        forall|i: int| 0 <= i < teachers_keyboard_rows(nika).len() ==> 0 < (#[trigger] teachers_keyboard_rows(nika)[i]).len() <= 3,
        forall|i: int| 0 <= i < teachers_keyboard_rows(nika).len() - 1 ==> (#[trigger] teachers_keyboard_rows(nika)[i]).len() == 3,
{
    sorted_by_name_orders_and_keeps(nika.teachers@);
    chunks_cover_items(sorted_by_name(nika.teachers@).map_values(|p: Pair| teacher_button(p)), 3);
}

/// The classes keyboard cuts the classes, in their order, into rows at exactly the places
/// where the course changes: every class gets the button with its name that sends
/// `class <id>`, no row is empty, two neighbouring classes in one row have equal courses
/// (as whole strings, looked up in `class_courses`), and the last class of a row and the
/// first of the next have different courses.
pub proof fn classes_keyboard_rows_change_with_the_course(nika: NikaResponse)
    requires
        every_class_has_course(nika),
    ensures
        flatten(classes_keyboard_rows(nika)) == nika.classes@.map_values(|p: Pair| (p.value@, "class "@ + p.key@)),
        forall|r: int| 0 <= r < classes_keyboard_rows(nika).len() ==> (#[trigger] classes_keyboard_rows(nika)[r]).len() > 0,
        row_start(classes_keyboard_rows(nika), classes_keyboard_rows(nika).len() as int) == nika.classes@.len(),
        forall|r: int, i: int|
            #![trigger row_start(classes_keyboard_rows(nika), r), lookup_value(nika.class_courses@, nika.classes@[i].key@)]
            0 <= r < classes_keyboard_rows(nika).len() && row_start(classes_keyboard_rows(nika), r) <= i
                && i + 1 < row_start(classes_keyboard_rows(nika), r + 1)
                ==> lookup_value(nika.class_courses@, nika.classes@[i].key@) == lookup_value(
                nika.class_courses@,
                nika.classes@[i + 1].key@,
            ),
        forall|r: int|
            0 < r < classes_keyboard_rows(nika).len() ==> lookup_value(
                nika.class_courses@,
                nika.classes@[#[trigger] row_start(classes_keyboard_rows(nika), r) - 1].key@,
            ) != lookup_value(nika.class_courses@, nika.classes@[row_start(classes_keyboard_rows(nika), r)].key@),
{
    let items = class_buttons_by_course(nika);
    let g = runs(items);
    let rows = classes_keyboard_rows(nika);
    classes_keyboard_lists_each_class_once(nika);
    runs_are_maximal(items);
    assert(rows =~= run_value_rows(g));
    assert(nika.classes@.map_values(|p: Pair| class_button(p)) =~= nika.classes@.map_values(
        |p: Pair| (p.value@, "class "@ + p.key@),
    ));
    assert forall|r: int, i: int|
        #![trigger row_start(rows, r), lookup_value(nika.class_courses@, nika.classes@[i].key@)]
        0 <= r < rows.len() && row_start(rows, r) <= i && i + 1 < row_start(rows, r + 1) implies
        lookup_value(nika.class_courses@, nika.classes@[i].key@) == lookup_value(nika.class_courses@, nika.classes@[i + 1].key@)
        by {
        lemma_run_positions(items, r);
        let j = i - row_start(rows, r);
        assert(items[row_start(rows, r) + j] == (g[r].0, g[r].1[j]));
        assert(items[row_start(rows, r) + (j + 1)] == (g[r].0, g[r].1[j + 1]));
        assert(items[i].0 == lookup_value(nika.class_courses@, nika.classes@[i].key@)->0);
        assert(items[i + 1].0 == lookup_value(nika.class_courses@, nika.classes@[i + 1].key@)->0);
        assert(lookup_value(nika.class_courses@, nika.classes@[i].key@) is Some);
        assert(lookup_value(nika.class_courses@, nika.classes@[i + 1].key@) is Some);
    }
    assert forall|r: int| 0 < r < rows.len() implies lookup_value(
        nika.class_courses@,
        nika.classes@[#[trigger] row_start(rows, r) - 1].key@,
    ) != lookup_value(nika.class_courses@, nika.classes@[row_start(rows, r)].key@) by {
        lemma_run_positions(items, r - 1);
        lemma_run_positions(items, r);
        let last = g[r - 1].1.len() - 1;
        assert(g[r - 1].1.len() > 0);
        assert(g[r].1.len() > 0);
        assert(items[row_start(rows, r - 1) + last] == (g[r - 1].0, g[r - 1].1[last]));
        assert(items[row_start(rows, r) + 0] == (g[r].0, g[r].1[0]));
        assert(g[r - 1].0 != g[r].0);
        let i = row_start(rows, r) - 1;
        assert(items[i].0 == lookup_value(nika.class_courses@, nika.classes@[i].key@)->0);
        assert(items[i + 1].0 == lookup_value(nika.class_courses@, nika.classes@[i + 1].key@)->0);
    }
    if rows.len() > 0 {
        lemma_run_positions(items, rows.len() - 1);
    }
    assert(rows.take(rows.len() as int) =~= rows);
    assert(flatten(rows).len() == nika.classes@.len());
}

/// Every button of the teachers keyboard is labelled with the full name of one teacher and
/// sends `teacher ` followed by that teacher's identifier; every teacher has such a button,
/// there are as many buttons as teachers, and the labels never decrease along the rows.
pub proof fn teachers_keyboard_labels_teachers_by_full_name(nika: NikaResponse)
    ensures
        flatten(teachers_keyboard_rows(nika)).len() == nika.teachers@.len(),
        forall|t: int| 0 <= t < flatten(teachers_keyboard_rows(nika)).len() ==> exists|k: int|
            0 <= k < nika.teachers@.len() && #[trigger] flatten(teachers_keyboard_rows(nika))[t] == (
                #[trigger] nika.teachers@[k].value@,
                "teacher "@ + nika.teachers@[k].key@,
            ),
        forall|k: int| 0 <= k < nika.teachers@.len() ==> exists|t: int|
            0 <= t < flatten(teachers_keyboard_rows(nika)).len() && #[trigger] flatten(teachers_keyboard_rows(nika))[t] == (
                #[trigger] nika.teachers@[k].value@,
                "teacher "@ + nika.teachers@[k].key@,
            ),
        forall|i: int, j: int| 0 <= i < j < flatten(teachers_keyboard_rows(nika)).len() ==> text_le(
            (#[trigger] flatten(teachers_keyboard_rows(nika))[i]).0,
            (#[trigger] flatten(teachers_keyboard_rows(nika))[j]).0,
        ),
{
    broadcast use vstd::seq_lib::to_multiset_len, vstd::seq_lib::to_multiset_contains;
    teachers_keyboard_orders_teachers(nika);
    let sorted = sorted_by_name(nika.teachers@);
    let flat = flatten(teachers_keyboard_rows(nika));
    assert(sorted.len() == sorted.to_multiset().len());
    assert(nika.teachers@.len() == nika.teachers@.to_multiset().len());
    assert forall|t: int| 0 <= t < flat.len() implies exists|k: int|
        0 <= k < nika.teachers@.len() && #[trigger] flat[t] == (
            #[trigger] nika.teachers@[k].value@,
            "teacher "@ + nika.teachers@[k].key@,
        ) by {
        let p = sorted[t];
        assert(flat[t] == teacher_button(p));
        assert(sorted.contains(p));
        assert(sorted.to_multiset().count(p) > 0);
        assert(nika.teachers@.to_multiset().count(p) > 0);
        assert(nika.teachers@.contains(p));
        let k = choose|k: int| 0 <= k < nika.teachers@.len() && nika.teachers@[k] == p;
        assert(flat[t] == (nika.teachers@[k].value@, "teacher "@ + nika.teachers@[k].key@));
    }
    assert forall|k: int| 0 <= k < nika.teachers@.len() implies exists|t: int|
        0 <= t < flat.len() && #[trigger] flat[t] == (
            #[trigger] nika.teachers@[k].value@,
            "teacher "@ + nika.teachers@[k].key@,
        ) by {
        let p = nika.teachers@[k];
        assert(nika.teachers@.contains(p));
        assert(nika.teachers@.to_multiset().count(p) > 0);
        assert(sorted.to_multiset().count(p) > 0);
        assert(sorted.contains(p));
        let t = choose|t: int| 0 <= t < sorted.len() && sorted[t] == p;
        assert(flat[t] == teacher_button(p));
    }
    assert forall|i: int, j: int| 0 <= i < j < flat.len() implies text_le(
        (#[trigger] flat[i]).0,
        (#[trigger] flat[j]).0,
    ) by {
        assert(flat[i].0 == sorted[i].value@);
        assert(flat[j].0 == sorted[j].value@);
    }
}

impl KeyboardMakerError {
    /// The text of the error: that of the regex error it carries, or
    /// `couldn't parse grade`.
    pub fn message(&self) -> (s: String)
        ensures
            s@ == match self {
                KeyboardMakerError::Regex(e) => regex_error_display(*e),
                KeyboardMakerError::GradeParsing => "couldn't parse grade"@,
            },
    {
        match self {
            KeyboardMakerError::Regex(e) => regex_error_text(e),
            KeyboardMakerError::GradeParsing => {
                let mut s = String::new();
                s.append("couldn't parse grade");
                s
            },
        }
    }
}

impl From<regex::Error> for KeyboardMakerError {
    fn from(err: regex::Error) -> (r: KeyboardMakerError) {
        KeyboardMakerError::Regex(err)
    }
}

impl vstd::std_specs::convert::FromSpecImpl<regex::Error> for KeyboardMakerError {
    open spec fn obeys_from_spec() -> bool {
        true
    }

    open spec fn from_spec(v: regex::Error) -> KeyboardMakerError {
        KeyboardMakerError::Regex(v)
    }
}

/// Whether every class has a course, as `make_classes_keyboard` needs.
pub fn all_classes_have_course(nika: &NikaResponse) -> (r: bool)
    ensures
        r == every_class_has_course(*nika),
{
    let mut i: usize = 0;
    while i < nika.classes.len()
        invariant
            i <= nika.classes@.len(),
            forall|j: int| 0 <= j < i ==> (#[trigger] lookup_value(nika.class_courses@, nika.classes@[j].key@)) is Some,
        decreases nika.classes@.len() - i,
    {
        if find_value(&nika.class_courses, &nika.classes[i].key).is_none() {
            return false;
        }
        i = i + 1;
    }
    true
}

} // verus!
